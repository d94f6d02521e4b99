//! In-engine text extraction from common document formats: the client uploads
//! the raw file and the format is chosen by the file name's extension.
//! Supported: `txt`/`md`/`csv` (plain), `html`, `pdf`, `xls`/`xlsx`/`ods`
//! (spreadsheets), `docx`. Legacy binary `.doc` is refused.
//!
//! Plain text is decoded here. The other formats are decoded by their parsers
//! (html2text, pdf-extract, calamine, zip), which can panic on malformed input
//! and so are run by the caller, where such a panic stays contained; what they
//! produce comes back as a [`Decoded`] value and is turned into text here.

use vstd::prelude::*;

use crate::error::NucleusError;
use crate::text::{
    chars_eq, lower, is_whitespace, is_ws, replace_all, replace_chars, str_chars,
    string_from_chars, string_from_range, to_ascii_lower, trim, trim_bounds,
};

verus! {

broadcast use vstd::string::group_string_axioms;

/// What `String::from_utf8_lossy` makes of `bytes`.
pub uninterp spec fn utf8_lossy(bytes: Seq<u8>) -> Seq<char>;

/// `String::from_utf8_lossy`: decodes UTF-8, replacing invalid sequences.
/// Its result is named by `utf8_lossy`; as std documents, valid UTF-8 comes
/// back as the text it encodes.
#[verifier::external_body]
fn from_utf8_lossy(bytes: &[u8]) -> (r: String)
    ensures
        r@ == utf8_lossy(bytes@),
        vstd::utf8::valid_utf8(bytes@) ==> r@ == vstd::utf8::decode_utf8(bytes@),
{
    String::from_utf8_lossy(bytes).into_owned()
}

// ---------------------------------------------------------------------------
// Extension dispatch
// ---------------------------------------------------------------------------

/// The index of the last `.` in `s[0..i)`.
pub open spec fn last_dot(s: Seq<char>, i: int) -> Option<int>
    decreases i,
{
    if i <= 0 {
        None
    } else if s[i - 1] == '.' {
        Some(i - 1)
    } else {
        last_dot(s, i - 1)
    }
}

/// `rsplit('.').next()`: the text after the last `.`, or the whole name.
pub open spec fn ext_of(name: Seq<char>) -> Seq<char> {
    match last_dot(name, name.len() as int) {
        Some(k) => name.subrange(k + 1, name.len() as int),
        None => name,
    }
}

/// The format a lower-cased extension selects: 0 plain text, 1 HTML, 2 PDF,
/// 3 spreadsheet, 4 DOCX, 5 legacy DOC, 6 anything else.
pub open spec fn ext_kind(e: Seq<char>) -> int {
    if e == seq!['t', 'x', 't'] || e == seq!['t', 'e', 'x', 't'] || e == seq!['m', 'd']
        || e == seq!['m', 'a', 'r', 'k', 'd', 'o', 'w', 'n'] || e == seq!['c', 's', 'v']
        || e == seq!['t', 's', 'v'] || e == seq!['l', 'o', 'g'] {
        0
    } else if e == seq!['h', 't', 'm', 'l'] || e == seq!['h', 't', 'm']
        || e == seq!['x', 'h', 't', 'm', 'l'] {
        1
    } else if e == seq!['p', 'd', 'f'] {
        2
    } else if e == seq!['x', 'l', 's', 'x'] || e == seq!['x', 'l', 's', 'm']
        || e == seq!['x', 'l', 's', 'b'] || e == seq!['x', 'l', 's'] || e == seq!['o', 'd', 's'] {
        3
    } else if e == seq!['d', 'o', 'c', 'x'] {
        4
    } else if e == seq!['d', 'o', 'c'] {
        5
    } else {
        6
    }
}

/// The format selected by a file name.
pub open spec fn name_kind(name: Seq<char>) -> int {
    ext_kind(lower(ext_of(name)))
}

fn lowered_ext(filename: &str) -> (r: Vec<char>)
    ensures r@ == lower(ext_of(filename@)),
{
    let cs = str_chars(filename);
    let mut i = cs.len();
    while i > 0 && cs[i - 1] != '.'
        invariant
            i <= cs@.len(),
            last_dot(cs@, cs@.len() as int) == last_dot(cs@, i as int),
        decreases i,
    {
        i = i - 1;
    }
    let start = if i > 0 { i } else { 0 };
    proof {
        if i > 0 {
            assert(last_dot(cs@, i as int) == Some(i - 1));
        }
    }
    let mut out: Vec<char> = Vec::new();
    let mut k = start;
    while k < cs.len()
        invariant
            start <= k <= cs@.len(),
            out@ == lower(cs@.subrange(start as int, k as int)),
        decreases cs.len() - k,
    {
        out.push(to_ascii_lower(cs[k]));
        k = k + 1;
        assert(out@ =~= lower(cs@.subrange(start as int, k as int)));
    }
    assert(cs@.subrange(0, cs@.len() as int) =~= cs@);
    out
}

fn kind_of(e: &Vec<char>) -> (r: u8)
    ensures r as int == ext_kind(e@),
{
    let s = e.as_slice();
    if chars_eq(s, &['t', 'x', 't']) || chars_eq(s, &['t', 'e', 'x', 't']) || chars_eq(s, &['m', 'd'])
        || chars_eq(s, &['m', 'a', 'r', 'k', 'd', 'o', 'w', 'n']) || chars_eq(s, &['c', 's', 'v'])
        || chars_eq(s, &['t', 's', 'v']) || chars_eq(s, &['l', 'o', 'g']) {
        0
    } else if chars_eq(s, &['h', 't', 'm', 'l']) || chars_eq(s, &['h', 't', 'm'])
        || chars_eq(s, &['x', 'h', 't', 'm', 'l']) {
        1
    } else if chars_eq(s, &['p', 'd', 'f']) {
        2
    } else if chars_eq(s, &['x', 'l', 's', 'x']) || chars_eq(s, &['x', 'l', 's', 'm'])
        || chars_eq(s, &['x', 'l', 's', 'b']) || chars_eq(s, &['x', 'l', 's'])
        || chars_eq(s, &['o', 'd', 's']) {
        3
    } else if chars_eq(s, &['d', 'o', 'c', 'x']) {
        4
    } else if chars_eq(s, &['d', 'o', 'c']) {
        5
    } else {
        6
    }
}

/// Whether a file name's extension is one that can be extracted.
pub fn is_supported(filename: &str) -> (r: bool)
    ensures r == (name_kind(filename@) <= 4),
{
    let e = lowered_ext(filename);
    kind_of(&e) <= 4
}


// ---------------------------------------------------------------------------
// Whitespace normalisation
// ---------------------------------------------------------------------------

/// The index of the first `\n` at or after `i` (or the length).
pub open spec fn line_end(s: Seq<char>, i: int) -> int
    decreases s.len() - i,
{
    if i >= s.len() {
        s.len() as int
    } else if s[i] == '\n' {
        i
    } else {
        line_end(s, i + 1)
    }
}

/// The line starting at `i` as `str::lines` yields it: up to the next `\n`,
/// with a `\r` just before that `\n` removed.
pub open spec fn line_at(s: Seq<char>, i: int) -> Seq<char> {
    let j = line_end(s, i);
    let l = s.subrange(i, j);
    if j < s.len() && l.len() > 0 && l.last() == '\r' { l.drop_last() } else { l }
}

/// `split_whitespace().join(" ")` on `l[i..]`: `started` says a word was
/// already emitted, `pending` that whitespace followed it.
pub open spec fn collapse_from(l: Seq<char>, i: int, started: bool, pending: bool) -> Seq<char>
    decreases l.len() - i,
{
    if i < 0 || i >= l.len() {
        Seq::empty()
    } else if is_ws(l[i]) {
        collapse_from(l, i + 1, started, started)
    } else {
        (if pending { seq![' '] } else { Seq::empty() }) + seq![l[i]]
            + collapse_from(l, i + 1, true, false)
    }
}

/// The words of a line joined by single spaces.
pub open spec fn collapse(l: Seq<char>) -> Seq<char> {
    collapse_from(l, 0, false, false)
}

/// The normalised lines of `s` from position `i`: each line's words joined by
/// single spaces and ended by `\n`; a run of blank lines becomes one `\n`.
/// `after_blank` says the previous line was blank.
pub open spec fn norm_from(s: Seq<char>, i: int, after_blank: bool) -> Seq<char>
    decreases s.len() - i,
{
    if i < 0 || i >= s.len() {
        Seq::empty()
    } else {
        let j = line_end(s, i);
        let t = collapse(line_at(s, i));
        let head = if t.len() == 0 {
            if after_blank { Seq::empty() } else { seq!['\n'] }
        } else {
            t + seq!['\n']
        };
        if i <= j < s.len() {
            head + norm_from(s, j + 1, t.len() == 0)
        } else {
            head
        }
    }
}

/// Runs of whitespace and blank lines collapsed, then the whole trimmed.
pub open spec fn normalize_spec(s: Seq<char>) -> Seq<char> {
    trim(norm_from(s, 0, false))
}

proof fn lemma_line_end(s: Seq<char>, i: int)
    requires 0 <= i <= s.len(),
    ensures
        i <= line_end(s, i) <= s.len(),
        line_end(s, i) < s.len() ==> s[line_end(s, i)] == '\n',
    decreases s.len() - i,
{
    if i < s.len() && s[i] != '\n' {
        lemma_line_end(s, i + 1);
    }
}

/// Append the collapsed form of `cs[a..b]` to `out`.
fn collapse_into(cs: &Vec<char>, a: usize, b: usize, out: &mut Vec<char>)
    requires a <= b <= cs@.len(),
    ensures final(out)@ == old(out)@ + collapse(cs@.subrange(a as int, b as int)),
{
    let ghost l = cs@.subrange(a as int, b as int);
    let ghost before = old(out)@;
    let mut k = a;
    let mut started = false;
    let mut pending = false;
    assert(before + collapse(l) == out@ + collapse_from(l, 0, false, false));
    while k < b
        invariant
            a <= k <= b <= cs@.len(),
            l == cs@.subrange(a as int, b as int),
            before + collapse(l) == out@ + collapse_from(l, k - a, started, pending),
        decreases b - k,
    {
        let c = cs[k];
        assert(l[k - a] == c);
        if is_whitespace(c) {
            pending = started;
        } else {
            let ghost o = out@;
            if pending {
                out.push(' ');
            }
            out.push(c);
            assert(o + ((if pending { seq![' '] } else { Seq::empty() }) + seq![c]
                + collapse_from(l, k - a + 1, true, false))
                =~= out@ + collapse_from(l, k - a + 1, true, false));
            started = true;
            pending = false;
        }
        k = k + 1;
    }
    assert(out@ + Seq::<char>::empty() =~= out@);
}

/// Collapse runs of whitespace and blank lines (extractors leave a lot of it).
fn normalize(s: &str) -> (r: String)
    ensures r@ == normalize_spec(s@),
{
    let cs = str_chars(s);
    let ghost sv = cs@;
    let mut out: Vec<char> = Vec::new();
    let mut i: usize = 0;
    let mut after_blank = false;
    assert(out@ + norm_from(sv, 0, false) =~= norm_from(sv, 0, false));
    while i < cs.len()
        invariant
            sv == cs@,
            sv == s@,
            i <= sv.len(),
            out@ + norm_from(sv, i as int, after_blank) == norm_from(sv, 0, false),
        decreases cs.len() - i,
    {
        proof { lemma_line_end(sv, i as int); }
        let mut j = i;
        while j < cs.len() && cs[j] != '\n'
            invariant
                sv == cs@,
                i <= j <= sv.len(),
                line_end(sv, i as int) == line_end(sv, j as int),
            decreases cs.len() - j,
        {
            j = j + 1;
        }
        let e = if j < cs.len() && j > i && cs[j - 1] == '\r' { j - 1 } else { j };
        assert(cs@.subrange(i as int, e as int) == line_at(sv, i as int));
        let mut line: Vec<char> = Vec::new();
        collapse_into(&cs, i, e, &mut line);
        assert(line@ =~= collapse(line_at(sv, i as int)));
        let ghost o = out@;
        if line.len() == 0 {
            if !after_blank {
                out.push('\n');
            }
            assert(j < sv.len() ==> o + ((if after_blank { Seq::empty() } else { seq!['\n'] }) + norm_from(sv, j + 1, true))
                =~= out@ + norm_from(sv, j + 1, true));
            after_blank = true;
        } else {
            let mut k: usize = 0;
            while k < line.len()
                invariant
                    k <= line@.len(),
                    out@ == o + line@.take(k as int),
                decreases line.len() - k,
            {
                out.push(line[k]);
                k = k + 1;
                assert(out@ =~= o + line@.take(k as int));
            }
            out.push('\n');
            assert(line@.take(line@.len() as int) =~= line@);
            assert(j < sv.len() ==> o + ((line@ + seq!['\n']) + norm_from(sv, j + 1, false))
                =~= out@ + norm_from(sv, j + 1, false));
            after_blank = false;
        }
        if j >= cs.len() {
            assert(out@ == norm_from(sv, 0, false));
            let (a, b) = trim_bounds(out.as_slice(), 0, out.len());
            return string_from_range(out.as_slice(), a, b);
        }
        i = j + 1;
    }
    assert(out@ + Seq::<char>::empty() =~= out@);
    let (a, b) = trim_bounds(out.as_slice(), 0, out.len());
    string_from_range(out.as_slice(), a, b)
}

// ---------------------------------------------------------------------------
// DOCX and spreadsheet text
// ---------------------------------------------------------------------------

/// `xml[i..]` with every `<...>` tag removed (`in_tag`: inside a tag).
pub open spec fn strip_tags(xml: Seq<char>, i: int, in_tag: bool) -> Seq<char>
    decreases xml.len() - i,
{
    if i < 0 || i >= xml.len() {
        Seq::empty()
    } else if xml[i] == '<' {
        strip_tags(xml, i + 1, true)
    } else if xml[i] == '>' {
        strip_tags(xml, i + 1, false)
    } else if !in_tag {
        seq![xml[i]] + strip_tags(xml, i + 1, in_tag)
    } else {
        strip_tags(xml, i + 1, in_tag)
    }
}

/// WordprocessingML to plain text: paragraph ends become newlines, tags are
/// dropped, then `&amp;`, `&lt;`, `&gt;`, `&quot;`, `&apos;` are unescaped in
/// that order.
pub open spec fn strip_docx_spec(xml: Seq<char>) -> Seq<char> {
    let with_breaks = replace_all(xml, seq!['<', '/', 'w', ':', 'p', '>'], seq!['\n']);
    let t = strip_tags(with_breaks, 0, false);
    let t1 = replace_all(t, seq!['&', 'a', 'm', 'p', ';'], seq!['&']);
    let t2 = replace_all(t1, seq!['&', 'l', 't', ';'], seq!['<']);
    let t3 = replace_all(t2, seq!['&', 'g', 't', ';'], seq!['>']);
    let t4 = replace_all(t3, seq!['&', 'q', 'u', 'o', 't', ';'], seq!['"']);
    replace_all(t4, seq!['&', 'a', 'p', 'o', 's', ';'], seq!['\''])
}

/// Turn WordprocessingML into plain text: paragraph ends become newlines, tags
/// are dropped, and the basic XML entities are unescaped.
pub fn strip_docx_xml(xml: &str) -> (r: String)
    ensures r@ == strip_docx_spec(xml@),
{
    let cs = str_chars(xml);
    let para_end = ['<', '/', 'w', ':', 'p', '>'];
    let newline = ['\n'];
    let amp = ['&', 'a', 'm', 'p', ';'];
    let lt = ['&', 'l', 't', ';'];
    let gt = ['&', 'g', 't', ';'];
    let quot = ['&', 'q', 'u', 'o', 't', ';'];
    let apos = ['&', 'a', 'p', 'o', 's', ';'];
    assert(para_end@ == seq!['<', '/', 'w', ':', 'p', '>']);
    assert(newline@ == seq!['\n']);
    assert(amp@ == seq!['&', 'a', 'm', 'p', ';']);
    assert(lt@ == seq!['&', 'l', 't', ';']);
    assert(gt@ == seq!['&', 'g', 't', ';']);
    assert(quot@ == seq!['&', 'q', 'u', 'o', 't', ';']);
    assert(apos@ == seq!['&', 'a', 'p', 'o', 's', ';']);
    let with_breaks = replace_chars(&cs, &para_end, &newline);
    let mut out: Vec<char> = Vec::new();
    let mut in_tag = false;
    let mut i: usize = 0;
    assert(out@ + strip_tags(with_breaks@, 0, false) =~= strip_tags(with_breaks@, 0, false));
    while i < with_breaks.len()
        invariant
            i <= with_breaks@.len(),
            out@ + strip_tags(with_breaks@, i as int, in_tag) == strip_tags(with_breaks@, 0, false),
        decreases with_breaks.len() - i,
    {
        let ch = with_breaks[i];
        let ghost o = out@;
        if ch == '<' {
            in_tag = true;
        } else if ch == '>' {
            in_tag = false;
        } else if !in_tag {
            out.push(ch);
            assert(o + (seq![ch] + strip_tags(with_breaks@, i + 1, false))
                =~= out@ + strip_tags(with_breaks@, i + 1, false));
        }
        i = i + 1;
    }
    assert(out@ + Seq::<char>::empty() =~= out@);
    let r1 = ['&'];
    let r2 = ['<'];
    let r3 = ['>'];
    let r4 = ['"'];
    let r5 = ['\''];
    assert(r1@ == seq!['&'] && r2@ == seq!['<'] && r3@ == seq!['>'] && r4@ == seq!['"'] && r5@ == seq!['\'']);
    let t1 = replace_chars(&out, &amp, &r1);
    let t2 = replace_chars(&t1, &lt, &r2);
    let t3 = replace_chars(&t2, &gt, &r3);
    let t4 = replace_chars(&t3, &quot, &r4);
    let t5 = replace_chars(&t4, &apos, &r5);
    string_from_chars(t5.as_slice())
}

/// A row of cells joined by ` | ` (an empty cell contributes nothing).
pub open spec fn row_line(row: Seq<Option<Seq<char>>>) -> Seq<char>
    decreases row.len(),
{
    if row.len() == 0 {
        Seq::empty()
    } else {
        let cell = match row.last() { Some(t) => t, None => Seq::empty() };
        if row.len() == 1 {
            cell
        } else {
            row_line(row.drop_last()) + seq![' ', '|', ' '] + cell
        }
    }
}

/// The text of the rows: each line whose trimmed form is non-empty, ended by `\n`.
pub open spec fn rows_text(rows: Seq<Seq<Option<Seq<char>>>>) -> Seq<char>
    decreases rows.len(),
{
    if rows.len() == 0 {
        Seq::empty()
    } else {
        let line = row_line(rows.last());
        rows_text(rows.drop_last()) + if trim(line).len() > 0 { line + seq!['\n'] } else { Seq::empty() }
    }
}

/// The text of a workbook: for each readable sheet, `# name` then its rows.
pub open spec fn sheets_text(sheets: Seq<(Seq<char>, Option<Seq<Seq<Option<Seq<char>>>>>)>) -> Seq<char>
    decreases sheets.len(),
{
    if sheets.len() == 0 {
        Seq::empty()
    } else {
        let (name, rows) = sheets.last();
        sheets_text(sheets.drop_last()) + match rows {
            None => Seq::empty(),
            Some(rs) => seq!['#', ' '] + name + seq!['\n'] + rows_text(rs),
        }
    }
}

fn append_str(out: &mut Vec<char>, s: &String)
    ensures final(out)@ == old(out)@ + s@,
{
    let cs = str_chars(s.as_str());
    let mut k: usize = 0;
    while k < cs.len()
        invariant
            k <= cs@.len(),
            out@ == old(out)@ + cs@.take(k as int),
        decreases cs.len() - k,
    {
        out.push(cs[k]);
        k = k + 1;
        assert(out@ =~= old(out)@ + cs@.take(k as int));
    }
    assert(cs@.take(cs@.len() as int) =~= cs@);
}

fn row_to_line(row: &Vec<Option<String>>) -> (r: Vec<char>)
    ensures r@ == row_line(row.deep_view()),
{
    let mut line: Vec<char> = Vec::new();
    let mut i: usize = 0;
    while i < row.len()
        invariant
            i <= row@.len(),
            line@ == row_line(row.deep_view().take(i as int)),
        decreases row.len() - i,
    {
        let ghost dv = row.deep_view();
        assert(dv.take(i + 1).drop_last() =~= dv.take(i as int));
        if i > 0 {
            line.push(' ');
            line.push('|');
            line.push(' ');
        }
        match &row[i] {
            Some(t) => append_str(&mut line, t),
            None => {},
        }
        i = i + 1;
        assert(line@ =~= row_line(dv.take(i as int)));
    }
    assert(row.deep_view().take(row@.len() as int) =~= row.deep_view());
    line
}

fn sheets_to_text(sheets: &Vec<(String, Option<Vec<Vec<Option<String>>>>)>) -> (r: Vec<char>)
    ensures r@ == sheets_text(sheets.deep_view()),
{
    let mut out: Vec<char> = Vec::new();
    let mut s: usize = 0;
    while s < sheets.len()
        invariant
            s <= sheets@.len(),
            out@ == sheets_text(sheets.deep_view().take(s as int)),
        decreases sheets.len() - s,
    {
        let ghost dv = sheets.deep_view();
        assert(dv.take(s + 1).drop_last() =~= dv.take(s as int));
        let ghost before = out@;
        let (name, rows) = &sheets[s];
        match rows {
            None => {},
            Some(rows) => {
                out.push('#');
                out.push(' ');
                append_str(&mut out, name);
                out.push('\n');
                let ghost head = out@;
                let mut r: usize = 0;
                while r < rows.len()
                    invariant
                        r <= rows@.len(),
                        out@ == head + rows_text(rows.deep_view().take(r as int)),
                    decreases rows.len() - r,
                {
                    let ghost rv = rows.deep_view();
                    assert(rv.take(r + 1).drop_last() =~= rv.take(r as int));
                    let line = row_to_line(&rows[r]);
                    let (a, b) = trim_bounds(line.as_slice(), 0, line.len());
                    let ghost o = out@;
                    if b > a {
                        let mut k: usize = 0;
                        while k < line.len()
                            invariant
                                k <= line@.len(),
                                out@ == o + line@.take(k as int),
                            decreases line.len() - k,
                        {
                            out.push(line[k]);
                            k = k + 1;
                            assert(out@ =~= o + line@.take(k as int));
                        }
                        out.push('\n');
                        assert(line@.take(line@.len() as int) =~= line@);
                    }
                    r = r + 1;
                    assert(out@ =~= head + rows_text(rows.deep_view().take(r as int)));
                }
                assert(rows.deep_view().take(rows@.len() as int) =~= rows.deep_view());
            },
        }
        s = s + 1;
        assert(out@ =~= sheets_text(dv.take(s as int)));
    }
    assert(sheets.deep_view().take(sheets@.len() as int) =~= sheets.deep_view());
    out
}

// ---------------------------------------------------------------------------
// Extraction
// ---------------------------------------------------------------------------

/// The formats whose bytes can be turned into text.
pub enum Format {
    Plain,
    Html,
    Pdf,
    Spreadsheet,
    Docx,
}

/// The number `ext_kind` gives a format.
pub open spec fn format_code(f: Format) -> int {
    match f {
        Format::Plain => 0,
        Format::Html => 1,
        Format::Pdf => 2,
        Format::Spreadsheet => 3,
        Format::Docx => 4,
    }
}

/// What a format's decoder produced from the uploaded bytes: the rendered text
/// (HTML, PDF), the sheets of a workbook (each sheet's name and, when its range
/// could be read, its rows of cells, `None` for an empty cell), or the XML of a
/// document's main part (DOCX).
pub enum Decoded {
    Text(String),
    Sheets(Vec<(String, Option<Vec<Vec<Option<String>>>>)>),
    DocumentXml(String),
}

/// The raw text a decoder's output stands for, before normalisation.
pub open spec fn decoded_raw(d: Decoded) -> Seq<char> {
    match d {
        Decoded::Text(t) => t@,
        Decoded::Sheets(sheets) => sheets_text(sheets.deep_view()),
        Decoded::DocumentXml(x) => strip_docx_spec(x@),
    }
}

/// The format selected by `filename`'s extension (case-insensitive). Legacy
/// `.doc` and unknown extensions are refused with `InvalidRequest`, naming the
/// problem.
pub fn extraction_format(filename: &str) -> (r: Result<Format, NucleusError>)
    ensures
        r is Ok <==> name_kind(filename@) <= 4,
        match r {
            Ok(f) => format_code(f) == name_kind(filename@),
            Err(e) => name_kind(filename@) > 4 && e is InvalidRequest,
        },
        name_kind(filename@) == 5 ==> (r matches Err(NucleusError::InvalidRequest(m))
            && m@ == "formato .doc heredado no soportado; convierte a .docx o .pdf"@),
        name_kind(filename@) > 5 ==> (r matches Err(NucleusError::InvalidRequest(m))
            && m@ == "formato no soportado: ."@ + lower(ext_of(filename@))),
{
    let e = lowered_ext(filename);
    let kind = kind_of(&e);
    if kind == 0 {
        Ok(Format::Plain)
    } else if kind == 1 {
        Ok(Format::Html)
    } else if kind == 2 {
        Ok(Format::Pdf)
    } else if kind == 3 {
        Ok(Format::Spreadsheet)
    } else if kind == 4 {
        Ok(Format::Docx)
    } else if kind == 5 {
        Err(NucleusError::InvalidRequest(String::from_str(
            "formato .doc heredado no soportado; convierte a .docx o .pdf",
        )))
    } else {
        let mut msg = String::from_str("formato no soportado: .");
        let ext = string_from_chars(e.as_slice());
        msg.append(ext.as_str());
        Err(NucleusError::InvalidRequest(msg))
    }
}

/// The text of a plain-text upload: its bytes decoded as UTF-8 (invalid
/// sequences replaced), then whitespace normalised.
pub fn plain_text(bytes: &[u8]) -> (r: String)
    ensures
        r@ == normalize_spec(utf8_lossy(bytes@)),
        vstd::utf8::valid_utf8(bytes@) ==> r@ == normalize_spec(vstd::utf8::decode_utf8(bytes@)),
{
    let text = from_utf8_lossy(bytes);
    normalize(text.as_str())
}

/// The text of an upload from what its format's decoder gave: the sheets laid
/// out as text, the document XML stripped, then whitespace normalised. A
/// decoder's failure becomes `InvalidRequest` with its message.
pub fn decoded_text(decoded: Result<Decoded, String>) -> (r: Result<String, NucleusError>)
    ensures
        match decoded {
            Ok(d) => r matches Ok(s) && s@ == normalize_spec(decoded_raw(d)),
            Err(m) => r matches Err(NucleusError::InvalidRequest(e)) && e == m,
        },
{
    match decoded {
        Ok(Decoded::Text(t)) => Ok(normalize(t.as_str())),
        Ok(Decoded::Sheets(sheets)) => {
            let t = sheets_to_text(&sheets);
            let s = string_from_chars(t.as_slice());
            Ok(normalize(s.as_str()))
        },
        Ok(Decoded::DocumentXml(xml)) => {
            let s = strip_docx_xml(xml.as_str());
            Ok(normalize(s.as_str()))
        },
        Err(m) => Err(NucleusError::InvalidRequest(m)),
    }
}

} // verus!
