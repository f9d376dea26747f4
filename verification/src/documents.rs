//! Local documents: newline normalisation, splitting text into overlapping
//! chunks for indexing, and the text-only parts of retrieval (stopwords, the
//! feature hash, excerpt truncation and the context preamble).

use vstd::prelude::*;
use vstd::utf8::{encode_scalar, encode_utf8};
use crate::paths::{extension, extension_of};
use crate::text::{
    chars_of, decimal, decimal_string, lower, lower_string, push_char, push_str, slice_eq,
    space_trim, string_from, string_of, string_of_range, trim, trim_bounds_in, Strip,
};

verus! {

broadcast use {vstd::string::group_string_axioms, vstd::utf8::char_is_scalar};

/// Most characters in one chunk.
pub const DOCUMENT_CHUNK_CHARS: usize = 1200;

/// Characters shared by consecutive chunks.
pub const DOCUMENT_CHUNK_OVERLAP_CHARS: usize = 180;

/// Bytes a chunk must reach before it may end early at a sentence break.
pub const DOCUMENT_MIN_CHUNK_CHARS: usize = 420;

/// Characters of document context handed to a model.
pub const DOCUMENT_CONTEXT_CHAR_LIMIT: usize = 3200;

// ---------------------------------------------------------------------------
// UTF-8 lengths
// ---------------------------------------------------------------------------

/// Bytes in the UTF-8 encoding of `s` (`str::len`).
pub open spec fn byte_len(s: Seq<char>) -> nat {
    encode_utf8(s).len()
}

/// `char::len_utf8`.
pub open spec fn char_width(c: char) -> nat {
    encode_scalar(c as u32).len()
}

/// The byte offset of character number `k` of `s`.
pub open spec fn offset_of(s: Seq<char>, k: int) -> nat {
    byte_len(s.take(k))
}

/// `b` is a character boundary of `s`.
pub open spec fn is_char_offset(s: Seq<char>, b: int) -> bool {
    exists|k: int| 0 <= k <= s.len() && offset_of(s, k) == b
}

pub proof fn lemma_encode_append(a: Seq<char>, b: Seq<char>)
    ensures
        encode_utf8(a + b) == encode_utf8(a) + encode_utf8(b),
    decreases a.len(),
{
    if a.len() > 0 {
        assert((a + b).drop_first() =~= a.drop_first() + b);
        lemma_encode_append(a.drop_first(), b);
        assert(encode_utf8(a + b) =~= encode_scalar(a[0] as u32) + (encode_utf8(a.drop_first())
            + encode_utf8(b)));
    } else {
        assert(a + b =~= b);
        assert(encode_utf8(a) =~= Seq::<u8>::empty());
    }
}

pub proof fn lemma_offset_step(s: Seq<char>, k: int)
    requires
        0 <= k < s.len(),
    ensures
        offset_of(s, k + 1) == offset_of(s, k) + char_width(s[k]),
        char_width(s[k]) >= 1,
{
    assert(s.take(k + 1) =~= s.take(k) + seq![s[k]]);
    lemma_encode_append(s.take(k), seq![s[k]]);
    assert(encode_utf8(seq![s[k]]) =~= encode_scalar(s[k] as u32) + encode_utf8(
        seq![s[k]].drop_first(),
    ));
    assert(seq![s[k]].drop_first() =~= Seq::<char>::empty());
}

/// Offsets grow strictly with the character index.
pub proof fn lemma_offset_monotonic(s: Seq<char>, j: int, k: int)
    requires
        0 <= j <= k <= s.len(),
    ensures
        offset_of(s, j) <= offset_of(s, k),
        j < k ==> offset_of(s, j) < offset_of(s, k),
    decreases k - j,
{
    if j < k {
        lemma_offset_step(s, k - 1);
        lemma_offset_monotonic(s, j, k - 1);
    }
}

/// Distinct character indices have distinct byte offsets.
pub proof fn lemma_offset_unique(s: Seq<char>, j: int, k: int)
    requires
        0 <= j <= s.len(),
        0 <= k <= s.len(),
        offset_of(s, j) == offset_of(s, k),
    ensures
        j == k,
{
    if j < k {
        lemma_offset_monotonic(s, j, k);
    } else if k < j {
        lemma_offset_monotonic(s, k, j);
    }
}

pub fn char_width_exec(c: char) -> (w: usize)
    ensures
        w == char_width(c),
        1 <= w <= 4,
{
    let u: u32 = c as u32;
    if u <= 0x7f {
        1
    } else if u <= 0x7ff {
        2
    } else if u <= 0xffff {
        3
    } else {
        4
    }
}

// ---------------------------------------------------------------------------
// Newlines
// ---------------------------------------------------------------------------

/// `replace("\r\n", "\n").replace('\r', "\n")`: every line break becomes `\n`.
pub open spec fn unify_newlines(s: Seq<char>) -> Seq<char>
    decreases s.len(),
{
    if s.len() == 0 {
        s
    } else if s[0] == '\r' && s.len() > 1 && s[1] == '\n' {
        seq!['\n'] + unify_newlines(s.skip(2))
    } else if s[0] == '\r' {
        seq!['\n'] + unify_newlines(s.drop_first())
    } else {
        seq![s[0]] + unify_newlines(s.drop_first())
    }
}

/// `normalize_document_text`: unified line breaks, outer whitespace removed.
pub fn normalize_document_text(content: &str) -> (r: String)
    ensures
        r@ == space_trim(unify_newlines(content@)),
{
    let v = chars_of(content);
    let mut out: Vec<char> = Vec::new();
    let mut i: usize = 0;
    assert(v@.skip(0) =~= v@);
    while i < v.len()
        invariant
            i <= v@.len(),
            v@ == content@,
            out@ + unify_newlines(v@.skip(i as int)) == unify_newlines(v@),
        decreases v@.len() - i,
    {
        let ghost rest = v@.skip(i as int);
        if v[i] == '\r' && i + 1 < v.len() && v[i + 1] == '\n' {
            out.push('\n');
            assert(rest.skip(2) =~= v@.skip(i + 2));
            assert(out@ + unify_newlines(v@.skip(i + 2)) =~= out@.drop_last() + (seq!['\n']
                + unify_newlines(rest.skip(2))));
            i += 2;
        } else {
            let c = if v[i] == '\r' {
                '\n'
            } else {
                v[i]
            };
            out.push(c);
            assert(rest.drop_first() =~= v@.skip(i + 1));
            assert(out@ + unify_newlines(v@.skip(i + 1)) =~= out@.drop_last() + (seq![c]
                + unify_newlines(rest.drop_first())));
            i += 1;
        }
    }
    assert(v@.skip(i as int) =~= Seq::<char>::empty());
    assert(out@ + Seq::<char>::empty() =~= out@);
    let (a, b) = trim_bounds_in(out.as_slice(), 0, out.len());
    assert(out@.subrange(0, out@.len() as int) =~= out@);
    string_of_range(out.as_slice(), a, b)
}

// ---------------------------------------------------------------------------
// Chunking
// ---------------------------------------------------------------------------

/// A character at which a chunk may end early.
pub open spec fn is_sentence_break(c: char) -> bool {
    c == '\n' || c == '.' || c == '!' || c == '?' || c == '。' || c == '！' || c == '？'
}

/// Ending the chunk that starts at character `start` right after character `k`
/// is allowed: the chunk then has at least `DOCUMENT_MIN_CHUNK_CHARS` bytes and
/// `k` is a sentence break.
pub open spec fn may_end_after(cs: Seq<char>, start: int, k: int) -> bool {
    offset_of(cs, k + 1) - offset_of(cs, start) >= DOCUMENT_MIN_CHUNK_CHARS && is_sentence_break(
        cs[k],
    )
}

/// The last allowed early end in `(start, hi]`.
pub open spec fn last_break(cs: Seq<char>, start: int, hi: int) -> Option<int>
    decreases hi - start,
{
    if hi <= start {
        None
    } else if may_end_after(cs, start, hi - 1) {
        Some(hi)
    } else {
        last_break(cs, start, hi - 1)
    }
}

pub proof fn lemma_last_break_range(cs: Seq<char>, start: int, hi: int)
    ensures
        last_break(cs, start, hi) matches Some(e) ==> start < e <= hi,
    decreases hi - start,
{
    if hi > start && !may_end_after(cs, start, hi - 1) {
        lemma_last_break_range(cs, start, hi - 1);
    }
}

/// The furthest end of the chunk starting at `start`:
/// `DOCUMENT_CHUNK_CHARS` characters later, or the end of the text.
pub open spec fn window_limit(n: int, start: int) -> int {
    if start + DOCUMENT_CHUNK_CHARS < n {
        start + DOCUMENT_CHUNK_CHARS
    } else {
        n
    }
}

/// Where the chunk starting at `start` ends (`preferred_chunk_end`).
pub open spec fn window_end(cs: Seq<char>, start: int) -> int {
    let m = window_limit(cs.len() as int, start);
    if m >= cs.len() {
        cs.len() as int
    } else {
        match last_break(cs, start, m) {
            Some(e) => e,
            None => m,
        }
    }
}

/// `byte_offset_before_characters`, in characters.
pub open spec fn back_by(end: int, count: int) -> int {
    if end >= count {
        end - count
    } else {
        0
    }
}

/// Where the chunk after the one starting at `start` begins: the overlap point,
/// unless that would not move forward.
pub open spec fn next_window_start(cs: Seq<char>, start: int) -> int {
    let e = window_end(cs, start);
    let o = back_by(e, DOCUMENT_CHUNK_OVERLAP_CHARS as int);
    if o > start {
        o
    } else {
        e
    }
}

pub proof fn lemma_window_progress(cs: Seq<char>, start: int)
    requires
        0 <= start < cs.len(),
    ensures
        start < window_end(cs, start) <= window_limit(cs.len() as int, start) <= cs.len(),
        window_end(cs, start) - start <= DOCUMENT_CHUNK_CHARS,
        start < next_window_start(cs, start) <= window_end(cs, start),
{
    lemma_last_break_range(cs, start, window_limit(cs.len() as int, start));
}

/// The character ranges `[start, end)` of the chunks, beginning at `start`.
pub open spec fn windows_from(cs: Seq<char>, start: int) -> Seq<(int, int)>
    decreases cs.len() - start,
    via windows_from_decreases
{
    if start < 0 || start >= cs.len() {
        Seq::empty()
    } else {
        let e = window_end(cs, start);
        if e >= cs.len() {
            seq![(start, e)]
        } else {
            seq![(start, e)] + windows_from(cs, next_window_start(cs, start))
        }
    }
}

#[via_fn]
proof fn windows_from_decreases(cs: Seq<char>, start: int) {
    if 0 <= start < cs.len() {
        lemma_window_progress(cs, start);
    }
}

/// The character ranges of all chunks of `cs`.
pub open spec fn chunk_windows(cs: Seq<char>) -> Seq<(int, int)> {
    windows_from(cs, 0)
}

/// The text of a chunk: its range, trimmed.
pub open spec fn window_text(cs: Seq<char>, w: (int, int)) -> Seq<char> {
    space_trim(cs.subrange(w.0, w.1))
}

pub open spec fn texts_of(cs: Seq<char>, ws: Seq<(int, int)>) -> Seq<Seq<char>> {
    ws.map_values(|w: (int, int)| window_text(cs, w)).filter(|t: Seq<char>| t.len() > 0)
}

/// `chunk_document_text`: the non-empty trimmed texts of the chunk windows.
pub open spec fn document_chunks(cs: Seq<char>) -> Seq<Seq<char>> {
    texts_of(cs, chunk_windows(cs))
}

proof fn lemma_texts_of_cons(cs: Seq<char>, w: (int, int), rest: Seq<(int, int)>)
    ensures
        texts_of(cs, seq![w] + rest) == (if window_text(cs, w).len() > 0 {
            seq![window_text(cs, w)]
        } else {
            Seq::empty()
        }) + texts_of(cs, rest),
{
    let f = |w: (int, int)| window_text(cs, w);
    let p = |t: Seq<char>| t.len() > 0;
    assert((seq![w] + rest).map_values(f) =~= seq![w].map_values(f) + rest.map_values(f));
    Seq::filter_distributes_over_add(seq![w].map_values(f), rest.map_values(f), p);
    reveal_with_fuel(vstd::seq::Seq::filter, 2);
    assert(seq![w].map_values(f) =~= seq![window_text(cs, w)]);
    assert(seq![window_text(cs, w)].drop_last() =~= Seq::<Seq<char>>::empty());
}

/// Splits a document into overlapping chunks for indexing: each chunk ends
/// after at most `DOCUMENT_CHUNK_CHARS` characters, or earlier at a sentence
/// break once it has `DOCUMENT_MIN_CHUNK_CHARS` bytes; the next chunk starts
/// `DOCUMENT_CHUNK_OVERLAP_CHARS` characters before that end. Chunks are
/// trimmed and empty ones dropped.
pub fn chunk_document_text(content: &str) -> (chunks: Vec<String>)
    ensures
        chunks@.map_values(|s: String| s@) == document_chunks(content@),
{
    let cs = chars_of(content);
    let n = cs.len();
    let mut chunks: Vec<String> = Vec::new();
    if n == 0 {
        assert(chunks@.map_values(|s: String| s@) =~= document_chunks(content@));
        return chunks;
    }
    let mut start: usize = 0;
    loop
        invariant
            cs@ == content@,
            n == cs@.len(),
            start < n,
            chunks@.map_values(|s: String| s@) + texts_of(cs@, windows_from(cs@, start as int))
                == document_chunks(cs@),
        decreases n - start,
    {
        proof {
            lemma_window_progress(cs@, start as int);
        }
        let max_end = if n - start > DOCUMENT_CHUNK_CHARS {
            start + DOCUMENT_CHUNK_CHARS
        } else {
            n
        };
        let end = if max_end >= n {
            n
        } else {
            preferred_end_chars(cs.as_slice(), start, max_end)
        };
        let ghost w = (start as int, end as int);
        let (a, b) = trim_bounds_in(cs.as_slice(), start, end);
        let ghost old_views = chunks@.map_values(|s: String| s@);
        let ghost rest = if end >= n {
            Seq::<(int, int)>::empty()
        } else {
            windows_from(cs@, next_window_start(cs@, start as int))
        };
        assert(windows_from(cs@, start as int) =~= seq![w] + rest);
        proof {
            lemma_texts_of_cons(cs@, w, rest);
        }
        if a < b {
            let t = string_of_range(cs.as_slice(), a, b);
            chunks.push(t);
            assert(chunks@.map_values(|s: String| s@) =~= old_views.push(window_text(cs@, w)));
        }
        if end >= n {
            assert(texts_of(cs@, Seq::<(int, int)>::empty()) =~= Seq::<Seq<char>>::empty());
            return chunks;
        }
        let overlap = if end >= DOCUMENT_CHUNK_OVERLAP_CHARS {
            end - DOCUMENT_CHUNK_OVERLAP_CHARS
        } else {
            0
        };
        start = if overlap > start {
            overlap
        } else {
            end
        };
    }
}

/// `preferred_chunk_end` on characters, for a window that stops before the end
/// of the text.
fn preferred_end_chars(cs: &[char], start: usize, max_end: usize) -> (end: usize)
    requires
        start < max_end < cs@.len(),
        max_end - start <= DOCUMENT_CHUNK_CHARS,
    ensures
        end == (match last_break(cs@, start as int, max_end as int) {
            Some(e) => e,
            None => max_end as int,
        }),
{
    let mut preferred: Option<usize> = None;
    let mut bytes: usize = 0;
    let mut k: usize = start;
    while k < max_end
        invariant
            start <= k <= max_end < cs@.len(),
            max_end - start <= DOCUMENT_CHUNK_CHARS,
            bytes == offset_of(cs@, k as int) - offset_of(cs@, start as int),
            bytes <= 4 * (k - start),
            preferred matches Some(p) ==> last_break(cs@, start as int, k as int) == Some(
                p as int,
            ),
            preferred is None ==> last_break(cs@, start as int, k as int) is None,
        decreases max_end - k,
    {
        let c = cs[k];
        proof {
            lemma_offset_step(cs@, k as int);
            lemma_offset_monotonic(cs@, start as int, k as int);
        }
        bytes = bytes + char_width_exec(c);
        if bytes >= DOCUMENT_MIN_CHUNK_CHARS && (c == '\n' || c == '.' || c == '!' || c == '?'
            || c == '。' || c == '！' || c == '？') {
            preferred = Some(k + 1);
        }
        k += 1;
    }
    match preferred {
        Some(p) => p,
        None => max_end,
    }
}

/// Every chunk window is non-empty, at most `DOCUMENT_CHUNK_CHARS` characters
/// long and starts after the previous one began and no later than it ended, so
/// that together the windows cover the whole text, overlapping where a text
/// spills over a chunk.
pub proof fn law_chunk_windows_cover(cs: Seq<char>)
    ensures
        cs.len() == 0 ==> chunk_windows(cs).len() == 0,
        cs.len() > 0 ==> {
            let ws = chunk_windows(cs);
            &&& ws.len() > 0
            &&& ws[0].0 == 0
            &&& ws.last().1 == cs.len()
            &&& forall|i: int|
                0 <= i < ws.len() ==> 0 <= #[trigger] ws[i].0 < ws[i].1 <= cs.len() && ws[i].1
                    - ws[i].0 <= DOCUMENT_CHUNK_CHARS
            &&& forall|i: int|
                0 <= i < ws.len() - 1 ==> ws[i].0 < #[trigger] ws[i + 1].0 <= ws[i].1
        },
{
    if cs.len() > 0 {
        lemma_windows_from_cover(cs, 0);
    }
}

proof fn lemma_windows_from_overlap(cs: Seq<char>, start: int)
    requires
        0 <= start < cs.len(),
    ensures
        ({
            let ws = windows_from(cs, start);
            forall|i: int|
                0 <= i < ws.len() - 1 ==> if ws[i].1 - 180 > ws[i].0 {
                    #[trigger] ws[i + 1].0 == ws[i].1 - 180
                } else {
                    ws[i + 1].0 == ws[i].1
                }
        }),
    decreases cs.len() - start,
{
    lemma_window_progress(cs, start);
    let e = window_end(cs, start);
    if e < cs.len() {
        let s2 = next_window_start(cs, start);
        lemma_windows_from_overlap(cs, s2);
        let rest = windows_from(cs, s2);
        let ws = windows_from(cs, start);
        assert(ws =~= seq![(start, e)] + rest);
        assert forall|i: int| 0 <= i < ws.len() - 1 implies if ws[i].1 - 180 > ws[i].0 {
            #[trigger] ws[i + 1].0 == ws[i].1 - 180
        } else {
            ws[i + 1].0 == ws[i].1
        } by {
            if i > 0 {
                let j = i - 1;
                assert(ws[i] == rest[j]);
                assert(ws[i + 1] == rest[j + 1]);
                assert(0 <= j < rest.len() - 1);
                assert(if rest[j].1 - 180 > rest[j].0 {
                    rest[j + 1].0 == rest[j].1 - 180
                } else {
                    rest[j + 1].0 == rest[j].1
                });
            } else {
                assert(ws[0] == (start, e));
                assert(ws[1] == rest[0]);
                lemma_windows_from_cover(cs, s2);
            }
        }
    }
}

/// Consecutive chunks share text: the next chunk starts 180 characters before
/// the previous one ends, unless that would not move past the previous start,
/// in which case it starts where the previous one ends.
pub proof fn law_chunks_overlap(cs: Seq<char>)
    ensures
        forall|i: int|
            0 <= i < chunk_windows(cs).len() - 1 ==> if chunk_windows(cs)[i].1 - 180
                > chunk_windows(cs)[i].0 {
                #[trigger] chunk_windows(cs)[i + 1].0 == chunk_windows(cs)[i].1 - 180
            } else {
                chunk_windows(cs)[i + 1].0 == chunk_windows(cs)[i].1
            },
{
    if cs.len() > 0 {
        lemma_windows_from_overlap(cs, 0);
    }
}

/// Every chunk of a document holds some text.
pub proof fn law_chunks_are_nonempty(cs: Seq<char>)
    ensures
        forall|i: int|
            0 <= i < document_chunks(cs).len() ==> #[trigger] document_chunks(cs)[i].len() > 0,
{
    assert forall|i: int| 0 <= i < document_chunks(cs).len() implies #[trigger] document_chunks(
        cs,
    )[i].len() > 0 by {
        broadcast use vstd::seq_lib::group_filter_ensures;
    }
}

proof fn lemma_windows_from_cover(cs: Seq<char>, start: int)
    requires
        0 <= start < cs.len(),
    ensures
        ({
            let ws = windows_from(cs, start);
            &&& ws.len() > 0
            &&& ws[0].0 == start
            &&& ws.last().1 == cs.len()
            &&& forall|i: int|
                0 <= i < ws.len() ==> start <= #[trigger] ws[i].0 < ws[i].1 <= cs.len() && ws[i].1
                    - ws[i].0 <= DOCUMENT_CHUNK_CHARS
            &&& forall|i: int|
                0 <= i < ws.len() - 1 ==> ws[i].0 < #[trigger] ws[i + 1].0 <= ws[i].1
        }),
    decreases cs.len() - start,
{
    lemma_window_progress(cs, start);
    let e = window_end(cs, start);
    if e < cs.len() {
        let s2 = next_window_start(cs, start);
        lemma_windows_from_cover(cs, s2);
        let rest = windows_from(cs, s2);
        let ws = windows_from(cs, start);
        assert(ws =~= seq![(start, e)] + rest);
        assert forall|i: int| 0 <= i < ws.len() - 1 implies ws[i].0 < #[trigger] ws[i + 1].0
            <= ws[i].1 by {
            if i > 0 {
                let j = i - 1;
                assert(ws[i] == rest[j]);
                assert(ws[i + 1] == rest[j + 1]);
                assert(rest[j].0 < rest[j + 1].0 <= rest[j].1);
            } else {
                assert(ws[1] == rest[0]);
            }
        }
        assert forall|i: int| 0 <= i < ws.len() implies start <= #[trigger] ws[i].0 < ws[i].1
            <= cs.len() && ws[i].1 - ws[i].0 <= DOCUMENT_CHUNK_CHARS by {
            if i > 0 {
                assert(ws[i] == rest[i - 1]);
            }
        }
    }
}

// ---------------------------------------------------------------------------
// Byte offsets
// ---------------------------------------------------------------------------

/// The character index at byte offset `b`, found by walking the text.
pub(crate) fn char_index_at(cs: &[char], b: usize) -> (k: usize)
    requires
        is_char_offset(cs@, b as int),
    ensures
        k <= cs@.len(),
        offset_of(cs@, k as int) == b,
{
    let ghost target = choose|k: int| 0 <= k <= cs@.len() && offset_of(cs@, k) == b;
    let mut k: usize = 0;
    let mut at: u128 = 0;
    proof {
        assert(cs@.take(0) =~= Seq::<char>::empty());
        assert(encode_utf8(Seq::<char>::empty()) =~= Seq::<u8>::empty());
    }
    while at < b as u128
        invariant
            0 <= target <= cs@.len(),
            offset_of(cs@, target) == b,
            k <= target,
            at == offset_of(cs@, k as int),
        decreases target - k,
    {
        proof {
            if k == target {
                assert(false);
            }
            lemma_offset_step(cs@, k as int);
        }
        at = at + char_width_exec(cs[k]) as u128;
        k += 1;
    }
    proof {
        if k < target {
            lemma_offset_monotonic(cs@, k as int, target);
        }
    }
    k
}

/// The number of bytes of the text, counted in a type that cannot overflow.
pub(crate) fn byte_len_wide(cs: &[char]) -> (n: u128)
    ensures
        n == byte_len(cs@),
{
    let mut i: usize = 0;
    let mut at: u128 = 0;
    proof {
        assert(cs@.take(0) =~= Seq::<char>::empty());
        assert(encode_utf8(Seq::<char>::empty()) =~= Seq::<u8>::empty());
    }
    while i < cs.len()
        invariant
            i <= cs@.len(),
            at == offset_of(cs@, i as int),
            at <= 4 * i,
        decreases cs@.len() - i,
    {
        proof {
            lemma_offset_step(cs@, i as int);
        }
        at = at + char_width_exec(cs[i]) as u128;
        i += 1;
    }
    assert(cs@.take(cs@.len() as int) =~= cs@);
    at
}

/// Whether byte offset `b` falls on a character boundary of the text.
pub(crate) fn is_boundary(cs: &[char], b: usize) -> (r: bool)
    ensures
        r == is_char_offset(cs@, b as int),
{
    let mut k: usize = 0;
    let mut at: u128 = 0;
    proof {
        assert(cs@.take(0) =~= Seq::<char>::empty());
        assert(encode_utf8(Seq::<char>::empty()) =~= Seq::<u8>::empty());
    }
    while k < cs.len() && at < b as u128
        invariant
            k <= cs@.len(),
            at == offset_of(cs@, k as int),
            at <= 4 * k,
            forall|j: int| 0 <= j < k ==> offset_of(cs@, j) < b,
        decreases cs@.len() - k,
    {
        proof {
            lemma_offset_step(cs@, k as int);
            assert forall|j: int| 0 <= j < k + 1 implies offset_of(cs@, j) < b by {
                if j == k {
                }
            }
        }
        at = at + char_width_exec(cs[k]) as u128;
        k += 1;
    }
    if at == b as u128 {
        return true;
    }
    proof {
        assert forall|j: int| 0 <= j <= cs@.len() implies offset_of(cs@, j) != b by {
            if j > k {
                lemma_offset_monotonic(cs@, k as int, j);
            }
        }
    }
    false
}

/// The byte offset of character `k` when the text's bytes fit in `usize`.
pub(crate) fn offset_at(cs: &[char], k: usize) -> (b: usize)
    requires
        k <= cs@.len(),
        byte_len(cs@) <= usize::MAX,
    ensures
        b == offset_of(cs@, k as int),
{
    let mut i: usize = 0;
    let mut at: usize = 0;
    proof {
        assert(cs@.take(0) =~= Seq::<char>::empty());
        assert(encode_utf8(Seq::<char>::empty()) =~= Seq::<u8>::empty());
    }
    while i < k
        invariant
            i <= k <= cs@.len(),
            byte_len(cs@) <= usize::MAX,
            at == offset_of(cs@, i as int),
        decreases k - i,
    {
        proof {
            lemma_offset_step(cs@, i as int);
            lemma_offset_monotonic(cs@, i + 1, cs@.len() as int);
            assert(cs@.take(cs@.len() as int) =~= cs@);
        }
        at = at + char_width_exec(cs[i]);
        i += 1;
    }
    at
}

/// The byte offset `count` characters after the boundary `start`, or the end
/// of the text when fewer remain.
pub fn byte_offset_after_characters(content: &str, start: usize, count: usize) -> (r: usize)
    requires
        is_char_offset(content@, start as int),
        byte_len(content@) <= usize::MAX,
    ensures
        forall|k: int|
            0 <= k <= content@.len() && #[trigger] offset_of(content@, k) == start ==> r == (if k + count
                < content@.len() {
                offset_of(content@, k + count)
            } else {
                byte_len(content@)
            }),
{
    let cs = chars_of(content);
    let k = char_index_at(cs.as_slice(), start);
    proof {
        assert forall|j: int|
            0 <= j <= content@.len() && offset_of(content@, j) == start implies j == k by {
            if j < k {
                lemma_offset_monotonic(cs@, j, k as int);
            } else if j > k {
                lemma_offset_monotonic(cs@, k as int, j);
            }
        }
        assert(cs@.take(cs@.len() as int) =~= cs@);
    }
    if count < cs.len() - k {
        offset_at(cs.as_slice(), k + count)
    } else {
        offset_at(cs.as_slice(), cs.len())
    }
}

/// The byte offset `count` characters before the boundary `end`, or `0` when
/// fewer precede it.
pub fn byte_offset_before_characters(content: &str, end: usize, count: usize) -> (r: usize)
    requires
        is_char_offset(content@, end as int),
        byte_len(content@) <= usize::MAX,
    ensures
        forall|k: int|
            0 <= k <= content@.len() && #[trigger] offset_of(content@, k) == end ==> r == offset_of(
                content@,
                back_by(k, count as int),
            ),
{
    let cs = chars_of(content);
    let k = char_index_at(cs.as_slice(), end);
    proof {
        assert forall|j: int|
            0 <= j <= content@.len() && offset_of(content@, j) == end implies j == k by {
            if j < k {
                lemma_offset_monotonic(cs@, j, k as int);
            } else if j > k {
                lemma_offset_monotonic(cs@, k as int, j);
            }
        }
    }
    let target = if k >= count {
        k - count
    } else {
        0
    };
    proof {
        if target == 0 {
            assert(cs@.take(0) =~= Seq::<char>::empty());
            assert(encode_utf8(Seq::<char>::empty()) =~= Seq::<u8>::empty());
        }
    }
    offset_at(cs.as_slice(), target)
}

/// `preferred_chunk_end` on byte offsets: the end of the chunk that starts at
/// byte `start` and may run to byte `maximum_end`.
pub fn preferred_chunk_end(content: &str, start: usize, maximum_end: usize) -> (r: usize)
    requires
        is_char_offset(content@, start as int),
        is_char_offset(content@, maximum_end as int),
        start <= maximum_end,
        byte_len(content@) <= usize::MAX,
    ensures
        forall|i: int, j: int|
            0 <= i <= j <= content@.len() && #[trigger] offset_of(content@, i) == start
                && #[trigger] offset_of(content@, j) == maximum_end ==> r == (if j >= content@.len() {
                byte_len(content@) as int
            } else {
                match last_break(content@, i, j) {
                    Some(e) => offset_of(content@, e) as int,
                    None => maximum_end as int,
                }
            }),
{
    let cs = chars_of(content);
    let i = char_index_at(cs.as_slice(), start);
    let j = char_index_at(cs.as_slice(), maximum_end);
    proof {
        assert forall|x: int|
            0 <= x <= content@.len() && offset_of(content@, x) == start implies x == i by {
            if x < i {
                lemma_offset_monotonic(cs@, x, i as int);
            } else if x > i {
                lemma_offset_monotonic(cs@, i as int, x);
            }
        }
        assert forall|x: int|
            0 <= x <= content@.len() && offset_of(content@, x) == maximum_end implies x == j by {
            if x < j {
                lemma_offset_monotonic(cs@, x, j as int);
            } else if x > j {
                lemma_offset_monotonic(cs@, j as int, x);
            }
        }
        if j < i {
            lemma_offset_monotonic(cs@, j as int, i as int);
        }
        assert(cs@.take(cs@.len() as int) =~= cs@);
    }
    if j >= cs.len() {
        return offset_at(cs.as_slice(), cs.len());
    }
    let mut preferred: Option<usize> = None;
    let mut k: usize = i;
    while k < j
        invariant
            i <= k <= j < cs@.len(),
            byte_len(cs@) <= usize::MAX,
            offset_of(cs@, i as int) == start,
            preferred matches Some(p) ==> p <= k && last_break(cs@, i as int, k as int) == Some(
                p as int,
            ),
            preferred is None ==> last_break(cs@, i as int, k as int) is None,
        decreases j - k,
    {
        let c = cs[k];
        let after = offset_at(cs.as_slice(), k + 1);
        proof {
            lemma_offset_monotonic(cs@, i as int, k + 1);
        }
        if after - start >= DOCUMENT_MIN_CHUNK_CHARS && (c == '\n' || c == '.' || c == '!' || c
            == '?' || c == '。' || c == '！' || c == '？') {
            preferred = Some(k + 1);
        }
        k += 1;
    }
    match preferred {
        Some(p) => offset_at(cs.as_slice(), p),
        None => maximum_end,
    }
}

// ---------------------------------------------------------------------------
// Names, excerpts, stopwords and feature hashing
// ---------------------------------------------------------------------------

/// The extensions of documents that can be indexed.
pub open spec fn supported_extension(e: Seq<char>) -> bool {
    e == seq!['t', 'x', 't'] || e == seq!['m', 'd'] || e == seq!['m', 'a', 'r', 'k', 'd', 'o', 'w', 'n']
        || e == seq!['r', 's', 't'] || e == seq!['c', 's', 'v'] || e == seq!['j', 's', 'o', 'n']
        || e == seq!['y', 'a', 'm', 'l'] || e == seq!['y', 'm', 'l'] || e == seq!['h', 't', 'm', 'l']
        || e == seq!['h', 't', 'm'] || e == seq!['l', 'o', 'g']
}

/// `is_supported_document_name`: the lower-cased extension is a text format.
pub fn is_supported_document_name(name: &str) -> (r: bool)
    ensures
        r == (extension(name@) matches Some(e) && supported_extension(lower(e))),
{
    let v = chars_of(name);
    let e = match extension_of(v.as_slice()) {
        Some(e) => e,
        None => {
            return false;
        },
    };
    let l = lower_string(string_of(e.as_slice()).as_str());
    let lv = chars_of(l.as_str());
    let s = lv.as_slice();
    let t1: Vec<char> = vec!['t', 'x', 't'];
    let t2: Vec<char> = vec!['m', 'd'];
    let t3: Vec<char> = vec!['m', 'a', 'r', 'k', 'd', 'o', 'w', 'n'];
    let t4: Vec<char> = vec!['r', 's', 't'];
    let t5: Vec<char> = vec!['c', 's', 'v'];
    let t6: Vec<char> = vec!['j', 's', 'o', 'n'];
    let t7: Vec<char> = vec!['y', 'a', 'm', 'l'];
    let t8: Vec<char> = vec!['y', 'm', 'l'];
    let t9: Vec<char> = vec!['h', 't', 'm', 'l'];
    let t10: Vec<char> = vec!['h', 't', 'm'];
    let t11: Vec<char> = vec!['l', 'o', 'g'];
    assert(t1@ =~= seq!['t', 'x', 't']);
    assert(t2@ =~= seq!['m', 'd']);
    assert(t3@ =~= seq!['m', 'a', 'r', 'k', 'd', 'o', 'w', 'n']);
    assert(t4@ =~= seq!['r', 's', 't']);
    assert(t5@ =~= seq!['c', 's', 'v']);
    assert(t6@ =~= seq!['j', 's', 'o', 'n']);
    assert(t7@ =~= seq!['y', 'a', 'm', 'l']);
    assert(t8@ =~= seq!['y', 'm', 'l']);
    assert(t9@ =~= seq!['h', 't', 'm', 'l']);
    assert(t10@ =~= seq!['h', 't', 'm']);
    assert(t11@ =~= seq!['l', 'o', 'g']);
    slice_eq(s, t1.as_slice()) || slice_eq(s, t2.as_slice()) || slice_eq(s, t3.as_slice())
        || slice_eq(s, t4.as_slice()) || slice_eq(s, t5.as_slice()) || slice_eq(s, t6.as_slice())
        || slice_eq(s, t7.as_slice()) || slice_eq(s, t8.as_slice()) || slice_eq(s, t9.as_slice())
        || slice_eq(s, t10.as_slice()) || slice_eq(s, t11.as_slice())
}

pub open spec fn ellipsis() -> Seq<char> {
    seq!['.', '.', '.']
}

/// `truncate_to_characters`: the text itself when short enough, otherwise its
/// first `limit - 3` characters (none when `limit < 3`) followed by `...`.
pub open spec fn truncated(value: Seq<char>, limit: int) -> Seq<char> {
    if value.len() <= limit {
        value
    } else {
        value.take(if limit >= 3 { limit - 3 } else { 0 }) + ellipsis()
    }
}

pub fn truncate_to_characters(value: &str, limit: usize) -> (r: String)
    ensures
        r@ == truncated(value@, limit as int),
{
    let v = chars_of(value);
    if v.len() <= limit {
        return string_of(v.as_slice());
    }
    let keep = if limit >= 3 {
        limit - 3
    } else {
        0
    };
    let mut r = string_of_range(v.as_slice(), 0, keep);
    assert(v@.subrange(0, keep as int) =~= v@.take(keep as int));
    push_char(&mut r, '.');
    push_char(&mut r, '.');
    push_char(&mut r, '.');
    assert(r@ =~= v@.take(keep as int) + ellipsis());
    r
}

/// Words that carry no meaning for retrieval.
pub open spec fn stopwords() -> Seq<Seq<char>> {
    seq![
        seq!['a'],
        seq!['a', 'n'],
        seq!['a', 'n', 'd'],
        seq!['a', 'r', 'e'],
        seq!['a', 's'],
        seq!['a', 't'],
        seq!['b', 'e'],
        seq!['b', 'y'],
        seq!['d', 'o', 'e', 's'],
        seq!['f', 'o', 'r'],
        seq!['f', 'r', 'o', 'm'],
        seq!['h', 'o', 'w'],
        seq!['i'],
        seq!['i', 'n'],
        seq!['i', 's'],
        seq!['i', 't'],
        seq!['o', 'f'],
        seq!['o', 'n'],
        seq!['o', 'r'],
        seq!['t', 'h', 'a', 't'],
        seq!['t', 'h', 'e'],
        seq!['t', 'h', 'i', 's'],
        seq!['t', 'o'],
        seq!['w', 'h', 'a', 't'],
        seq!['w', 'h', 'e', 'n'],
        seq!['w', 'h', 'e', 'r', 'e'],
        seq!['w', 'h', 'i', 'c', 'h'],
        seq!['w', 'h', 'o'],
        seq!['w', 'i', 't', 'h'],
        seq!['y', 'o', 'u'],
    ]
}

/// `is_embedding_stopword`.
pub fn is_embedding_stopword(token: &str) -> (r: bool)
    ensures
        r == stopwords().contains(token@),
{
    let t = chars_of(token);
    let w0: Vec<char> = vec!['a'];
    assert(w0@ =~= stopwords()[0]);
    let w1: Vec<char> = vec!['a', 'n'];
    assert(w1@ =~= stopwords()[1]);
    let w2: Vec<char> = vec!['a', 'n', 'd'];
    assert(w2@ =~= stopwords()[2]);
    let w3: Vec<char> = vec!['a', 'r', 'e'];
    assert(w3@ =~= stopwords()[3]);
    let w4: Vec<char> = vec!['a', 's'];
    assert(w4@ =~= stopwords()[4]);
    let w5: Vec<char> = vec!['a', 't'];
    assert(w5@ =~= stopwords()[5]);
    let w6: Vec<char> = vec!['b', 'e'];
    assert(w6@ =~= stopwords()[6]);
    let w7: Vec<char> = vec!['b', 'y'];
    assert(w7@ =~= stopwords()[7]);
    let w8: Vec<char> = vec!['d', 'o', 'e', 's'];
    assert(w8@ =~= stopwords()[8]);
    let w9: Vec<char> = vec!['f', 'o', 'r'];
    assert(w9@ =~= stopwords()[9]);
    let w10: Vec<char> = vec!['f', 'r', 'o', 'm'];
    assert(w10@ =~= stopwords()[10]);
    let w11: Vec<char> = vec!['h', 'o', 'w'];
    assert(w11@ =~= stopwords()[11]);
    let w12: Vec<char> = vec!['i'];
    assert(w12@ =~= stopwords()[12]);
    let w13: Vec<char> = vec!['i', 'n'];
    assert(w13@ =~= stopwords()[13]);
    let w14: Vec<char> = vec!['i', 's'];
    assert(w14@ =~= stopwords()[14]);
    let w15: Vec<char> = vec!['i', 't'];
    assert(w15@ =~= stopwords()[15]);
    let w16: Vec<char> = vec!['o', 'f'];
    assert(w16@ =~= stopwords()[16]);
    let w17: Vec<char> = vec!['o', 'n'];
    assert(w17@ =~= stopwords()[17]);
    let w18: Vec<char> = vec!['o', 'r'];
    assert(w18@ =~= stopwords()[18]);
    let w19: Vec<char> = vec!['t', 'h', 'a', 't'];
    assert(w19@ =~= stopwords()[19]);
    let w20: Vec<char> = vec!['t', 'h', 'e'];
    assert(w20@ =~= stopwords()[20]);
    let w21: Vec<char> = vec!['t', 'h', 'i', 's'];
    assert(w21@ =~= stopwords()[21]);
    let w22: Vec<char> = vec!['t', 'o'];
    assert(w22@ =~= stopwords()[22]);
    let w23: Vec<char> = vec!['w', 'h', 'a', 't'];
    assert(w23@ =~= stopwords()[23]);
    let w24: Vec<char> = vec!['w', 'h', 'e', 'n'];
    assert(w24@ =~= stopwords()[24]);
    let w25: Vec<char> = vec!['w', 'h', 'e', 'r', 'e'];
    assert(w25@ =~= stopwords()[25]);
    let w26: Vec<char> = vec!['w', 'h', 'i', 'c', 'h'];
    assert(w26@ =~= stopwords()[26]);
    let w27: Vec<char> = vec!['w', 'h', 'o'];
    assert(w27@ =~= stopwords()[27]);
    let w28: Vec<char> = vec!['w', 'i', 't', 'h'];
    assert(w28@ =~= stopwords()[28]);
    let w29: Vec<char> = vec!['y', 'o', 'u'];
    assert(w29@ =~= stopwords()[29]);
    let r = slice_eq(t.as_slice(), w0.as_slice())
        || slice_eq(t.as_slice(), w1.as_slice())
        || slice_eq(t.as_slice(), w2.as_slice())
        || slice_eq(t.as_slice(), w3.as_slice())
        || slice_eq(t.as_slice(), w4.as_slice())
        || slice_eq(t.as_slice(), w5.as_slice())
        || slice_eq(t.as_slice(), w6.as_slice())
        || slice_eq(t.as_slice(), w7.as_slice())
        || slice_eq(t.as_slice(), w8.as_slice())
        || slice_eq(t.as_slice(), w9.as_slice())
        || slice_eq(t.as_slice(), w10.as_slice())
        || slice_eq(t.as_slice(), w11.as_slice())
        || slice_eq(t.as_slice(), w12.as_slice())
        || slice_eq(t.as_slice(), w13.as_slice())
        || slice_eq(t.as_slice(), w14.as_slice())
        || slice_eq(t.as_slice(), w15.as_slice())
        || slice_eq(t.as_slice(), w16.as_slice())
        || slice_eq(t.as_slice(), w17.as_slice())
        || slice_eq(t.as_slice(), w18.as_slice())
        || slice_eq(t.as_slice(), w19.as_slice())
        || slice_eq(t.as_slice(), w20.as_slice())
        || slice_eq(t.as_slice(), w21.as_slice())
        || slice_eq(t.as_slice(), w22.as_slice())
        || slice_eq(t.as_slice(), w23.as_slice())
        || slice_eq(t.as_slice(), w24.as_slice())
        || slice_eq(t.as_slice(), w25.as_slice())
        || slice_eq(t.as_slice(), w26.as_slice())
        || slice_eq(t.as_slice(), w27.as_slice())
        || slice_eq(t.as_slice(), w28.as_slice())
        || slice_eq(t.as_slice(), w29.as_slice());
    proof {
        if r {
            assert(stopwords().contains(token@));
        }
    }
    r
}

/// The 64-bit FNV-1a hash of `bytes`, continued from `h`.
pub open spec fn fnv1a(h: u64, bytes: Seq<u8>) -> u64
    decreases bytes.len(),
{
    if bytes.len() == 0 {
        h
    } else {
        fnv1a(
            (h ^ (bytes[0] as u64)).wrapping_mul(0x100000001b3u64),
            bytes.drop_first(),
        )
    }
}

pub open spec fn fnv_offset_basis() -> u64 {
    0xcbf29ce484222325
}

/// `stable_feature_hash`: FNV-1a over the UTF-8 bytes of the feature.
pub fn stable_feature_hash(feature: &str) -> (h: u64)
    ensures
        h == fnv1a(fnv_offset_basis(), encode_utf8(feature@)),
{
    let bytes = feature.as_bytes();
    let mut hash: u64 = 0xcbf29ce484222325;
    let mut i: usize = 0;
    assert(bytes@.skip(0) =~= bytes@);
    while i < bytes.len()
        invariant
            i <= bytes@.len(),
            bytes@ == encode_utf8(feature@),
            fnv1a(hash, bytes@.skip(i as int)) == fnv1a(fnv_offset_basis(), bytes@),
        decreases bytes@.len() - i,
    {
        assert(bytes@.skip(i as int).drop_first() =~= bytes@.skip(i + 1));
        hash = hash ^ (bytes[i] as u64);
        hash = hash.wrapping_mul(0x100000001b3);
        i += 1;
    }
    assert(bytes@.skip(i as int) =~= Seq::<u8>::empty());
    hash
}

} // verus!
