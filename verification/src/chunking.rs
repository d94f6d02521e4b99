//! Splitting document text into chunks: a character-windowed splitter with
//! overlap that is **boundary-aware** — it backtracks within the tail of the
//! window to the last sentence boundary, falling back to the last whitespace,
//! so chunks end on a natural break whenever one exists nearby.

use vstd::prelude::*;

use crate::text::{
    is_whitespace, is_ws, lemma_skip_ws_back, lemma_skip_ws_fwd, skip_ws_back, skip_ws_fwd,
    str_chars, string_from_range, trim, trim_bounds, trim_range,
};

verus! {

broadcast use vstd::string::group_string_axioms;

/// Splits a document body into retrievable chunks.
pub trait Chunker {
    /// The chunks produced for `text`.
    spec fn chunks_of(&self, text: Seq<char>) -> Seq<Seq<char>>;

    /// Whether `chunk` can run on `text` (no index arithmetic overflows).
    spec fn accepts(&self, text: Seq<char>) -> bool;

    fn chunk(&self, text: &str) -> (r: Vec<String>)
        requires self.accepts(text@),
        ensures r@.map_values(|s: String| s@) == self.chunks_of(text@);
}

/// Fixed-size sliding window over Unicode scalar values, with overlap between
/// consecutive windows and boundary-aware cutting.
#[derive(Debug, Clone, Copy)]
pub struct FixedSizeChunker {
    /// Window size in characters (target upper bound).
    pub size: usize,
    /// Overlap in characters between adjacent windows (clamped to `size - 1`).
    pub overlap: usize,
}

/// A sentence terminator: the cut lands just after it.
pub open spec fn is_sentence_end(c: char) -> bool {
    c == '.' || c == '!' || c == '?' || c == '\n' || c == '\u{3002}' || c == '\u{ff01}'
        || c == '\u{ff1f}'
}

/// The last index `i` in `[lo, hi)` with `pred(cs[i])`, if any.
pub open spec fn last_sentence_end(cs: Seq<char>, lo: int, hi: int) -> Option<int>
    decreases hi - lo,
{
    if hi <= lo {
        None
    } else if is_sentence_end(cs[hi - 1]) {
        Some(hi - 1)
    } else {
        last_sentence_end(cs, lo, hi - 1)
    }
}

/// The last index `i` in `[lo, hi)` holding whitespace, if any.
pub open spec fn last_ws(cs: Seq<char>, lo: int, hi: int) -> Option<int>
    decreases hi - lo,
{
    if hi <= lo {
        None
    } else if is_ws(cs[hi - 1]) {
        Some(hi - 1)
    } else {
        last_ws(cs, lo, hi - 1)
    }
}

/// `a - b`, floored at zero.
pub open spec fn sat_sub(a: int, b: int) -> int {
    if a >= b { a - b } else { 0 }
}

/// `max(a, b)`.
pub open spec fn max(a: int, b: int) -> int {
    if a >= b { a } else { b }
}

/// `min(a, b)`.
pub open spec fn min(a: int, b: int) -> int {
    if a <= b { a } else { b }
}

impl FixedSizeChunker {
    /// How far back from the hard window end a cut may move: `size / 4`.
    pub open spec fn spec_lookback(self) -> int {
        (self.size / 4) as int
    }

    /// The cut for the non-final window `cs[start..hard_end]`: just after the
    /// last sentence terminator in the lookback tail, else just after the last
    /// whitespace there, else the hard end.
    pub open spec fn spec_boundary_end(self, cs: Seq<char>, start: int, hard_end: int) -> int {
        let floor = max(sat_sub(hard_end, self.spec_lookback()), start + 1);
        match last_sentence_end(cs, floor, hard_end) {
            Some(i) => i + 1,
            None => match last_ws(cs, floor, hard_end) {
                Some(i) => i + 1,
                None => hard_end,
            },
        }
    }

    /// The end of the window that starts at `start`.
    pub open spec fn window_end(self, cs: Seq<char>, start: int) -> int {
        let hard_end = min(start + self.size, cs.len() as int);
        if hard_end == cs.len() {
            hard_end
        } else {
            self.spec_boundary_end(cs, start, hard_end)
        }
    }

    /// The chunks of `cs` from window start `start` on: each window trimmed,
    /// empty ones dropped; the next window starts `overlap` characters before
    /// the cut, but always at least one character further.
    pub open spec fn chunks_from(self, cs: Seq<char>, start: int) -> Seq<Seq<char>>
        decreases cs.len() - start,
    {
        if start < 0 || start >= cs.len() {
            Seq::empty()
        } else {
            let end = self.window_end(cs, start);
            let piece = trim_range(cs, start, end);
            let head = if piece.len() > 0 { seq![piece] } else { Seq::empty() };
            let next = max(sat_sub(end, self.overlap as int), start + 1);
            if end == cs.len() || next > cs.len() {
                head
            } else {
                head + self.chunks_from(cs, next)
            }
        }
    }

    /// A chunker with window `max(size, 1)` and overlap clamped to `size - 1`.
    pub fn new(size: usize, overlap: usize) -> (r: Self)
        ensures
            r.size == if size >= 1 { size } else { 1 },
            r.overlap == if overlap <= r.size - 1 { overlap } else { (r.size - 1) as usize },
    {
        let size = if size >= 1 { size } else { 1 };
        let overlap = if overlap <= size - 1 { overlap } else { size - 1 };
        Self { size, overlap }
    }

    /// The default window: 1000 characters with 200 of overlap.
    pub fn default() -> (r: Self)
        ensures r.size == 1000 && r.overlap == 200,
    {
        Self::new(1000, 200)
    }

    fn lookback(&self) -> (r: usize)
        ensures r == self.spec_lookback(),
    {
        self.size / 4
    }

    fn boundary_end(&self, chars: &Vec<char>, start: usize, hard_end: usize) -> (r: usize)
        requires
            start <= hard_end < chars.len(),
        ensures
            r == self.spec_boundary_end(chars@, start as int, hard_end as int),
            start <= r <= hard_end,
            start < hard_end ==> start < r,
    {
        let lb = self.lookback();
        let sub = if hard_end >= lb { hard_end - lb } else { 0 };
        let floor = if sub >= start + 1 { sub } else { start + 1 };
        let ghost cs = chars@;
        assert(floor as int == max(sat_sub(hard_end as int, self.spec_lookback()), start as int + 1));
        if floor >= hard_end {
            return hard_end;
        }
        // Prefer a sentence terminator (cut just after it, keeping the mark).
        let mut i = hard_end;
        while i > floor
            invariant
                cs == chars@,
                start < floor <= i <= hard_end < cs.len(),
                floor as int == max(sat_sub(hard_end as int, self.spec_lookback()), start as int + 1),
                last_sentence_end(cs, floor as int, hard_end as int)
                    == last_sentence_end(cs, floor as int, i as int),
            decreases i - floor,
        {
            let c = chars[i - 1];
            if c == '.' || c == '!' || c == '?' || c == '\n' || c == '\u{3002}' || c == '\u{ff01}'
                || c == '\u{ff1f}' {
                return i;
            }
            i = i - 1;
        }
        // Otherwise the last whitespace in the lookback window (cut after it).
        let mut j = hard_end;
        while j > floor
            invariant
                cs == chars@,
                start < floor <= j <= hard_end < cs.len(),
                floor as int == max(sat_sub(hard_end as int, self.spec_lookback()), start as int + 1),
                last_sentence_end(cs, floor as int, hard_end as int) is None,
                last_ws(cs, floor as int, hard_end as int) == last_ws(cs, floor as int, j as int),
            decreases j - floor,
        {
            if is_whitespace(chars[j - 1]) {
                return j;
            }
            j = j - 1;
        }
        hard_end
    }
}

proof fn lemma_last_sentence_end_range(cs: Seq<char>, lo: int, hi: int)
    ensures last_sentence_end(cs, lo, hi) matches Some(i) ==> lo <= i < hi,
    decreases hi - lo,
{
    if hi > lo && !is_sentence_end(cs[hi - 1]) {
        lemma_last_sentence_end_range(cs, lo, hi - 1);
    }
}

proof fn lemma_last_ws_range(cs: Seq<char>, lo: int, hi: int)
    ensures last_ws(cs, lo, hi) matches Some(i) ==> lo <= i < hi,
    decreases hi - lo,
{
    if hi > lo && !is_ws(cs[hi - 1]) {
        lemma_last_ws_range(cs, lo, hi - 1);
    }
}

proof fn lemma_window_end_range(c: FixedSizeChunker, cs: Seq<char>, start: int)
    requires 0 <= start < cs.len(),
    ensures start <= c.window_end(cs, start) <= min(start + c.size, cs.len() as int),
{
    let hard_end = min(start + c.size, cs.len() as int);
    if hard_end != cs.len() {
        let floor = max(sat_sub(hard_end, c.spec_lookback()), start + 1);
        lemma_last_sentence_end_range(cs, floor, hard_end);
        lemma_last_ws_range(cs, floor, hard_end);
    }
}

/// Consecutive windows overlap. After a window `[start, end)` that is not the
/// last, the chunks go on with the window that starts `overlap` characters
/// before the cut (or one character after `start`, when the cut is that
/// close), wherever the cut fell: after a sentence end, after whitespace, or at
/// the hard window end. So the last `overlap` characters before a cut are
/// where the next window begins.
pub proof fn lemma_windows_overlap(c: FixedSizeChunker, cs: Seq<char>, start: int)
    requires
        0 <= start < cs.len(),
        c.window_end(cs, start) < cs.len(),
    ensures
        ({
            let end = c.window_end(cs, start);
            let next = if end - c.overlap > start { end - c.overlap } else { start + 1 };
            let piece = trim_range(cs, start, end);
            &&& c.size >= 1 ==> start < end
            &&& c.chunks_from(cs, start)
                == (if piece.len() > 0 { seq![piece] } else { Seq::<Seq<char>>::empty() }) + c.chunks_from(cs, next)
            &&& c.overlap > 0 && end - c.overlap > start ==> next + c.overlap == end
        }),
{
    let hard_end = min(start + c.size, cs.len() as int);
    let floor = max(sat_sub(hard_end, c.spec_lookback()), start + 1);
    lemma_last_sentence_end_range(cs, floor, hard_end);
    lemma_last_ws_range(cs, floor, hard_end);
    lemma_window_end_range(c, cs, start);
    let end = c.window_end(cs, start);
    assert(max(sat_sub(end, c.overlap as int), start + 1)
        == if end - c.overlap > start { end - c.overlap } else { start + 1 });
}

/// The piece kept for a window, if non-empty, is trimmed: it neither starts nor
/// ends with whitespace, and it lies within the window.
proof fn lemma_trim_range_shape(cs: Seq<char>, a: int, b: int)
    requires 0 <= a <= b <= cs.len(),
    ensures
        trim_range(cs, a, b).len() <= b - a,
        trim_range(cs, a, b).len() > 0 ==> !is_ws(trim_range(cs, a, b)[0])
            && !is_ws(trim_range(cs, a, b).last()),
        (forall|k: int| a <= k < b ==> is_ws(#[trigger] cs[k])) ==> trim_range(cs, a, b).len() == 0,
{
    lemma_skip_ws_fwd(cs, a, b);
    let x = skip_ws_fwd(cs, a, b);
    lemma_skip_ws_back(cs, x, b);
    let y = skip_ws_back(cs, x, b);
    let t = trim_range(cs, a, b);
    if t.len() > 0 {
        assert(t[0] == cs[x]);
        assert(t.last() == cs[y - 1]);
    }
    if forall|k: int| a <= k < b ==> is_ws(#[trigger] cs[k]) {
        if x < b {
            assert(is_ws(cs[x]));
        }
    }
}

/// Every chunk is non-empty, at most `size` characters long, and neither
/// starts nor ends with whitespace.
pub proof fn lemma_chunks_well_formed(c: FixedSizeChunker, cs: Seq<char>, start: int)
    ensures
        forall|k: int| 0 <= k < c.chunks_from(cs, start).len() ==> {
            let p = #[trigger] c.chunks_from(cs, start)[k];
            &&& 0 < p.len() <= c.size
            &&& !is_ws(p[0])
            &&& !is_ws(p.last())
        },
    decreases cs.len() - start,
{
    if 0 <= start < cs.len() {
        let end = c.window_end(cs, start);
        lemma_window_end_range(c, cs, start);
        lemma_trim_range_shape(cs, start, end);
        let next = max(sat_sub(end, c.overlap as int), start + 1);
        let piece = trim_range(cs, start, end);
        let head = if piece.len() > 0 { seq![piece] } else { Seq::<Seq<char>>::empty() };
        if !(end == cs.len() || next > cs.len()) {
            lemma_chunks_well_formed(c, cs, next);
            let all = c.chunks_from(cs, start);
            assert(all == head + c.chunks_from(cs, next));
            assert forall|k: int| 0 <= k < all.len() implies {
                let p = #[trigger] all[k];
                &&& 0 < p.len() <= c.size
                &&& !is_ws(p[0])
                &&& !is_ws(p.last())
            } by {
                if k >= head.len() {
                    assert(all[k] == c.chunks_from(cs, next)[k - head.len()]);
                }
            }
        }
    }
}

/// A text made only of whitespace (or empty) yields no chunks.
pub proof fn lemma_blank_text_no_chunks(c: FixedSizeChunker, cs: Seq<char>, start: int)
    requires forall|k: int| 0 <= k < cs.len() ==> is_ws(#[trigger] cs[k]),
    ensures c.chunks_from(cs, start).len() == 0,
    decreases cs.len() - start,
{
    if 0 <= start < cs.len() {
        let end = c.window_end(cs, start);
        lemma_window_end_range(c, cs, start);
        lemma_trim_range_shape(cs, start, end);
        let next = max(sat_sub(end, c.overlap as int), start + 1);
        if !(end == cs.len() || next > cs.len()) {
            lemma_blank_text_no_chunks(c, cs, next);
        }
    }
}

proof fn lemma_last_sentence_end_found(cs: Seq<char>, lo: int, hi: int, j: int)
    requires
        lo <= j < hi,
        is_sentence_end(cs[j]),
    ensures
        last_sentence_end(cs, lo, hi) matches Some(i) && lo <= i < hi && is_sentence_end(cs[i]),
    decreases hi - lo,
{
    if !is_sentence_end(cs[hi - 1]) {
        lemma_last_sentence_end_found(cs, lo, hi - 1, j);
    }
}

proof fn lemma_last_ws_found(cs: Seq<char>, lo: int, hi: int, j: int)
    requires
        lo <= j < hi,
        is_ws(cs[j]),
    ensures
        last_ws(cs, lo, hi) matches Some(i) && lo <= i < hi && is_ws(cs[i]),
    decreases hi - lo,
{
    if !is_ws(cs[hi - 1]) {
        lemma_last_ws_found(cs, lo, hi - 1, j);
    }
}

/// A window that is not the last ends right after a sentence terminator or a
/// whitespace whenever the look-back tail of the window holds one: no word is
/// cut in two then.
pub proof fn lemma_cut_at_natural_break(c: FixedSizeChunker, cs: Seq<char>, start: int, j: int)
    requires
        0 <= start,
        start + c.size < cs.len(),
        max(sat_sub(start + c.size, c.spec_lookback()), start + 1) <= j < start + c.size,
        is_sentence_end(cs[j]) || is_ws(cs[j]),
    ensures
        ({
            let end = c.window_end(cs, start);
            &&& start < end <= start + c.size
            &&& (is_sentence_end(cs[end - 1]) || is_ws(cs[end - 1]))
        }),
{
    let hard_end = start + c.size;
    let floor = max(sat_sub(hard_end, c.spec_lookback()), start + 1);
    lemma_last_sentence_end_range(cs, floor, hard_end);
    if is_sentence_end(cs[j]) {
        lemma_last_sentence_end_found(cs, floor, hard_end, j);
    } else {
        match last_sentence_end(cs, floor, hard_end) {
            Some(i) => {
                lemma_last_sentence_end_found_at(cs, floor, hard_end);
            },
            None => {
                lemma_last_ws_found(cs, floor, hard_end, j);
            },
        }
    }
}

/// What `last_sentence_end` finds is a sentence terminator.
proof fn lemma_last_sentence_end_found_at(cs: Seq<char>, lo: int, hi: int)
    ensures
        last_sentence_end(cs, lo, hi) matches Some(i) ==> is_sentence_end(cs[i]),
    decreases hi - lo,
{
    if hi > lo && !is_sentence_end(cs[hi - 1]) {
        lemma_last_sentence_end_found_at(cs, lo, hi - 1);
    }
}

/// A text no longer than the window is one chunk, itself trimmed (none when
/// the trimmed text is empty).
pub proof fn lemma_short_text_single_chunk(c: FixedSizeChunker, cs: Seq<char>)
    requires cs.len() <= c.size,
    ensures
        c.chunks_from(cs, 0) == if trim(cs).len() > 0 { seq![trim(cs)] } else { Seq::<Seq<char>>::empty() },
{
    if cs.len() > 0 {
        assert(c.window_end(cs, 0) == cs.len());
    }
}

impl Chunker for FixedSizeChunker {
    open spec fn chunks_of(&self, text: Seq<char>) -> Seq<Seq<char>> {
        self.chunks_from(text, 0)
    }

    open spec fn accepts(&self, text: Seq<char>) -> bool {
        self.size + text.len() <= usize::MAX
    }

    fn chunk(&self, text: &str) -> (r: Vec<String>) {
        let chars = str_chars(text);
        let ghost cs = chars@;
        let mut out: Vec<String> = Vec::new();
        if chars.len() == 0 {
            return out;
        }
        let mut start: usize = 0;
        assert(out@.map_values(|s: String| s@) + self.chunks_from(cs, 0) =~= self.chunks_from(cs, 0));
        loop
            invariant_except_break
                start < cs.len(),
                self.chunks_from(cs, 0) == out@.map_values(|s: String| s@) + self.chunks_from(cs, start as int),
            invariant
                cs == chars@,
                cs == text@,
                self.size + cs.len() <= usize::MAX,
            ensures
                self.chunks_from(cs, 0) == out@.map_values(|s: String| s@),
            decreases chars.len() - start,
        {
            let hard_end = if start + self.size <= chars.len() { start + self.size } else { chars.len() };
            let end = if hard_end == chars.len() {
                hard_end
            } else {
                self.boundary_end(&chars, start, hard_end)
            };
            assert(end == self.window_end(cs, start as int));
            let (a, b) = trim_bounds(chars.as_slice(), start, end);
            let ghost piece_v = trim_range(cs, start as int, end as int);
            let ghost head = if piece_v.len() > 0 { seq![piece_v] } else { Seq::<Seq<char>>::empty() };
            let ghost prev = out@.map_values(|s: String| s@);
            if b > a {
                let piece = string_from_range(chars.as_slice(), a, b);
                out.push(piece);
            }
            assert(out@.map_values(|s: String| s@) =~= prev + head);
            if end == chars.len() {
                assert(self.chunks_from(cs, start as int) == head);
                assert(prev + head =~= out@.map_values(|s: String| s@));
                break;
            }
            let sub = if end >= self.overlap { end - self.overlap } else { 0 };
            let next = if sub >= start + 1 { sub } else { start + 1 };
            if next >= chars.len() {
                assert(self.chunks_from(cs, start as int) == head);
                assert(prev + head =~= out@.map_values(|s: String| s@));
                break;
            }
            assert(self.chunks_from(cs, start as int) == head + self.chunks_from(cs, next as int));
            assert(prev + (head + self.chunks_from(cs, next as int))
                =~= (prev + head) + self.chunks_from(cs, next as int));
            start = next;
        }
        out
    }
}

} // verus!
