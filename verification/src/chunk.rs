//! Splitting a document into overlapping, trimmed character windows for
//! retrieval.
use vstd::prelude::*;
use crate::text::{chars_of, is_ws, trim_end, trim_start, law_trim_edges, law_trim_idempotent, lemma_trim_cut, string_from_chars, trim, trim_range};

verus! {

/// The views of a sequence of strings.
pub open spec fn views(v: Seq<String>) -> Seq<Seq<char>> {
    v.map_values(|c: String| c@)
}

/// How far consecutive windows start apart: `max` less the overlap, where
/// the overlap is capped at a quarter of `max`; at least 1.
pub open spec fn chunk_step(max: nat, overlap: nat) -> nat {
    let ov = if overlap <= max / 4 { overlap } else { max / 4 };
    let s = if max >= ov { (max - ov) as nat } else { 0 };
    if s >= 1 { s } else { 1 }
}

/// The trimmed, non-empty windows of `cs` of at most `max` characters that
/// start at `start`, `start + step`, ... and stop after the first window
/// that reaches the end of `cs`.
pub open spec fn window_chunks(cs: Seq<char>, start: nat, max: nat, step: nat) -> Seq<Seq<char>>
    decreases cs.len() - start,
{
    if start >= cs.len() {
        seq![]
    } else {
        let end = if start + max < cs.len() { start + max } else { cs.len() };
        let w = trim(cs.subrange(start as int, end as int));
        let rest = if end == cs.len() || step == 0 || start + step >= cs.len() {
            seq![]
        } else {
            window_chunks(cs, start + step, max, step)
        };
        if w.len() == 0 {
            rest
        } else {
            seq![w] + rest
        }
    }
}

/// The chunks of `text`: the whole text trimmed (or nothing, if that is
/// empty) when it has at most `max` characters, else its windows.
pub open spec fn chunk_spec(text: Seq<char>, max: nat, overlap: nat) -> Seq<Seq<char>> {
    if text.len() <= max {
        let t = trim(text);
        if t.len() == 0 {
            seq![]
        } else {
            seq![t]
        }
    } else {
        window_chunks(text, 0, max, chunk_step(max, overlap))
    }
}

/// Overlapping char-window chunks (trimmed); paragraph-aware enough for
/// retrieval.
///
/// A text of at most `max_chars` characters gives itself, trimmed, or no
/// chunk if it is all whitespace. A longer text gives the trimmed windows of
/// `max_chars` characters that start every `max_chars - overlap` characters
/// (the overlap capped at a quarter of `max_chars`, the step at least one),
/// the last window being the first that reaches the end; windows that trim
/// to nothing are left out.
pub fn chunk_text(text: &str, max_chars: usize, overlap: usize) -> (chunks: Vec<String>)
    ensures
        views(chunks@) == chunk_spec(text@, max_chars as nat, overlap as nat),
{
    let cs = chars_of(text);
    let n = cs.len();
    let mut out: Vec<String> = Vec::new();
    if n <= max_chars {
        let (a, b) = trim_range(&cs, 0, n);
        assert(cs@.subrange(0, n as int) == cs@);
        if a < b {
            out.push(string_from_chars(&cs, a, b));
        }
        assert(views(out@) =~= chunk_spec(text@, max_chars as nat, overlap as nat));
        return out;
    }
    let ov = if overlap <= max_chars / 4 {
        overlap
    } else {
        max_chars / 4
    };
    let s = if max_chars >= ov {
        max_chars - ov
    } else {
        0
    };
    let step = if s >= 1 {
        s
    } else {
        1
    };
    let ghost total = window_chunks(cs@, 0, max_chars as nat, step as nat);
    let mut i: usize = 0;
    assert(views(out@) =~= Seq::<Seq<char>>::empty());
    while i < n
        invariant
            n == cs@.len(),
            i <= n,
            step >= 1,
            views(out@) + window_chunks(cs@, i as nat, max_chars as nat, step as nat) == total,
        decreases n - i,
    {
        let end = if max_chars >= n - i {
            n
        } else {
            i + max_chars
        };
        let (a, b) = trim_range(&cs, i, end);
        let ghost before = views(out@);
        let ghost rest = if end == n || step >= n - i {
            Seq::<Seq<char>>::empty()
        } else {
            window_chunks(cs@, (i + step) as nat, max_chars as nat, step as nat)
        };
        if a < b {
            let piece = string_from_chars(&cs, a, b);
            out.push(piece);
            assert(views(out@) =~= before.push(cs@.subrange(a as int, b as int)));
            assert(before + window_chunks(cs@, i as nat, max_chars as nat, step as nat) =~= views(
                out@,
            ) + rest);
        } else {
            assert(views(out@) == before);
        }
        if end == n || step >= n - i {
            i = n;
        } else {
            i = i + step;
        }
    }
    assert(views(out@) =~= total);
    out
}

/// What every chunk is: non-empty, already trimmed, at most `max`
/// characters long, and a contiguous piece of the text.
pub open spec fn good_chunk(c: Seq<char>, text: Seq<char>, max: nat) -> bool {
    &&& c.len() > 0
    &&& trim(c) == c
    &&& c.len() <= max
    &&& exists|p: int| 0 <= p && p + c.len() <= text.len() && #[trigger] text.subrange(p, p + c.len()) == c
}

proof fn lemma_trimmed_piece(cs: Seq<char>, lo: int, hi: int, max: nat)
    requires
        0 <= lo <= hi <= cs.len(),
        hi - lo <= max,
        trim(cs.subrange(lo, hi)).len() > 0,
    ensures
        good_chunk(trim(cs.subrange(lo, hi)), cs, max),
{
    let w = cs.subrange(lo, hi);
    let (a, b) = lemma_trim_cut(w);
    law_trim_idempotent(w);
    assert(w.subrange(a, b) == cs.subrange(lo + a, lo + b));
    let c = trim(w);
    assert(cs.subrange(lo + a, lo + a + c.len()) == c);
}

proof fn lemma_windows_good(cs: Seq<char>, start: nat, max: nat, step: nat)
    ensures
        forall|k: int|
            0 <= k < window_chunks(cs, start, max, step).len() ==> good_chunk(
                #[trigger] window_chunks(cs, start, max, step)[k],
                cs,
                max,
            ),
    decreases cs.len() - start,
{
    if start < cs.len() {
        let end = if start + max < cs.len() { start + max } else { cs.len() };
        let w = trim(cs.subrange(start as int, end as int));
        let rest = if end == cs.len() || step == 0 || start + step >= cs.len() {
            Seq::<Seq<char>>::empty()
        } else {
            lemma_windows_good(cs, start + step, max, step);
            window_chunks(cs, start + step, max, step)
        };
        let all = window_chunks(cs, start, max, step);
        if w.len() > 0 {
            lemma_trimmed_piece(cs, start as int, end as int, max);
            assert(all == seq![w] + rest);
            assert forall|k: int| 0 <= k < all.len() implies good_chunk(#[trigger] all[k], cs, max) by {
                if k > 0 {
                    assert(all[k] == rest[k - 1]);
                }
            }
        } else {
            assert(all == rest);
        }
    }
}

/// Every chunk is non-empty, has no whitespace at either end, has at most
/// `max_chars` characters, and is a contiguous piece of the text.
pub proof fn law_chunks_are_trimmed_windows(text: Seq<char>, max_chars: nat, overlap: nat)
    ensures
        forall|k: int|
            0 <= k < chunk_spec(text, max_chars, overlap).len() ==> good_chunk(
                #[trigger] chunk_spec(text, max_chars, overlap)[k],
                text,
                max_chars,
            ),
        forall|k: int|
            0 <= k < chunk_spec(text, max_chars, overlap).len() ==> !is_ws(
                #[trigger] chunk_spec(text, max_chars, overlap)[k][0],
            ) && !is_ws(chunk_spec(text, max_chars, overlap)[k].last()),
{
    if text.len() <= max_chars {
        if trim(text).len() > 0 {
            assert(text.subrange(0, text.len() as int) == text);
            lemma_trimmed_piece(text, 0, text.len() as int, max_chars);
        }
    } else {
        lemma_windows_good(text, 0, max_chars, chunk_step(max_chars, overlap));
    }
    assert forall|k: int| 0 <= k < chunk_spec(text, max_chars, overlap).len() implies !is_ws(
        #[trigger] chunk_spec(text, max_chars, overlap)[k][0],
    ) && !is_ws(chunk_spec(text, max_chars, overlap)[k].last()) by {
        let c = chunk_spec(text, max_chars, overlap)[k];
        law_trim_edges(c);
    }
}

proof fn lemma_windows_blank(cs: Seq<char>, start: nat, max: nat, step: nat)
    requires
        forall|i: int| 0 <= i < cs.len() ==> is_ws(#[trigger] cs[i]),
    ensures
        window_chunks(cs, start, max, step).len() == 0,
    decreases cs.len() - start,
{
    if start < cs.len() {
        let end = if start + max < cs.len() { start + max } else { cs.len() };
        let w = cs.subrange(start as int, end as int);
        assert forall|i: int| 0 <= i < w.len() implies is_ws(#[trigger] w[i]) by {
            assert(w[i] == cs[start + i]);
        }
        law_trim_edges(w);
        if !(end == cs.len() || step == 0 || start + step >= cs.len()) {
            lemma_windows_blank(cs, start + step, max, step);
        }
    }
}

/// A text that is all whitespace gives no chunk; any other text that fits
/// in one window gives exactly one.
pub proof fn law_chunk_count_edges(text: Seq<char>, max_chars: nat, overlap: nat)
    ensures
        (forall|i: int| 0 <= i < text.len() ==> is_ws(#[trigger] text[i])) ==> chunk_spec(
            text,
            max_chars,
            overlap,
        ).len() == 0,
        (text.len() <= max_chars && exists|i: int| 0 <= i < text.len() && !is_ws(#[trigger] text[i]))
            ==> chunk_spec(text, max_chars, overlap).len() == 1,
{
    law_trim_edges(text);
    if forall|i: int| 0 <= i < text.len() ==> is_ws(#[trigger] text[i]) {
        if text.len() > max_chars {
            lemma_windows_blank(text, 0, max_chars, chunk_step(max_chars, overlap));
        }
    }
}

/// Chunk `k` of `chunks` is the piece of `text` at `a`, and that piece holds
/// position `p`.
pub open spec fn chunk_covers(chunks: Seq<Seq<char>>, text: Seq<char>, k: int, a: int, p: int) -> bool {
    &&& 0 <= k < chunks.len()
    &&& 0 <= a <= p < a + chunks[k].len() <= text.len()
    &&& text.subrange(a, a + chunks[k].len()) == chunks[k]
}

proof fn lemma_window_covers(cs: Seq<char>, lo: int, hi: int, p: int) -> (a: int)
    requires
        0 <= lo <= p < hi <= cs.len(),
        !is_ws(cs[p]),
    ensures
        trim(cs.subrange(lo, hi)).len() > 0,
        lo <= a <= p < a + trim(cs.subrange(lo, hi)).len() <= hi,
        cs.subrange(a, a + trim(cs.subrange(lo, hi)).len()) == trim(cs.subrange(lo, hi)),
{
    let w = cs.subrange(lo, hi);
    let (x, y) = lemma_trim_cut(w);
    assert(w[p - lo] == cs[p]);
    assert(x <= p - lo < y);
    assert(w.subrange(x, y) == cs.subrange(lo + x, lo + y));
    lo + x
}

proof fn lemma_windows_cover(cs: Seq<char>, start: nat, max: nat, step: nat, p: int)
    requires
        1 <= step <= max,
        start <= p < cs.len(),
        !is_ws(cs[p]),
    ensures
        exists|k: int, a: int| chunk_covers(window_chunks(cs, start, max, step), cs, k, a, p),
    decreases cs.len() - start,
{
    let all = window_chunks(cs, start, max, step);
    let end = if start + max < cs.len() { start + max } else { cs.len() };
    let w = trim(cs.subrange(start as int, end as int));
    if p < end {
        let a = lemma_window_covers(cs, start as int, end as int, p);
        assert(all[0] == w);
        assert(chunk_covers(all, cs, 0, a, p));
    } else {
        let rest = window_chunks(cs, start + step, max, step);
        lemma_windows_cover(cs, start + step, max, step, p);
        let (k, a) = choose|k: int, a: int| chunk_covers(rest, cs, k, a, p);
        if w.len() == 0 {
            assert(all == rest);
            assert(chunk_covers(all, cs, k, a, p));
        } else {
            assert(all == seq![w] + rest);
            assert(all[k + 1] == rest[k]);
            assert(chunk_covers(all, cs, k + 1, a, p));
        }
    }
}

/// Nothing is lost: every character of the text that is not whitespace lies
/// in some chunk, at its place in the text (for windows of at least one
/// character; a window of none gives no chunk at all).
pub proof fn law_chunks_cover_text(text: Seq<char>, max_chars: nat, overlap: nat)
    requires
        max_chars > 0,
    ensures
        forall|p: int|
            0 <= p < text.len() && !is_ws(#[trigger] text[p]) ==> exists|k: int, a: int|
                chunk_covers(chunk_spec(text, max_chars, overlap), text, k, a, p),
{
    let chunks = chunk_spec(text, max_chars, overlap);
    assert forall|p: int| 0 <= p < text.len() && !is_ws(#[trigger] text[p]) implies exists|k: int, a: int|
        chunk_covers(chunks, text, k, a, p) by {
        if text.len() <= max_chars {
            let a = lemma_window_covers(text, 0, text.len() as int, p);
            assert(text.subrange(0, text.len() as int) == text);
            assert(chunks[0] == trim(text));
            assert(chunk_covers(chunks, text, 0, a, p));
        } else {
            lemma_windows_cover(text, 0, max_chars, chunk_step(max_chars, overlap), p);
        }
    }
}

proof fn lemma_trim_solid(s: Seq<char>)
    requires
        s.len() > 0,
        forall|i: int| 0 <= i < s.len() ==> !is_ws(#[trigger] s[i]),
    ensures
        trim(s) == s,
{
    assert(trim_start(s) == s);
    assert(trim_end(s) == s);
}

proof fn lemma_step_shift(start: nat, st: nat, j: int)
    requires
        j >= 1,
    ensures
        start + st + (j - 1) * st == start + j * st,
{
    assert(st + (j - 1) * st == j * st) by (nonlinear_arith)
        requires
            j >= 1,
    ;
}

proof fn lemma_windows_exact(cs: Seq<char>, start: nat, max: nat, st: nat)
    requires
        1 <= st <= max,
        start < cs.len(),
        forall|i: int| 0 <= i < cs.len() ==> !is_ws(#[trigger] cs[i]),
    ensures
        window_chunks(cs, start, max, st).len() >= 1,
        forall|j: int|
            0 <= j < window_chunks(cs, start, max, st).len() ==> {
                &&& #[trigger] window_chunks(cs, start, max, st)[j] == cs.subrange(
                    start + j * st,
                    if start + j * st + max < cs.len() { start + j * st + max } else { cs.len() as int },
                )
                &&& (j < window_chunks(cs, start, max, st).len() - 1 ==> start + j * st + max < cs.len())
            },
        start + (window_chunks(cs, start, max, st).len() - 1) * st + max >= cs.len(),
    decreases cs.len() - start,
{
    let w = window_chunks(cs, start, max, st);
    let end = if start + max < cs.len() { start + max } else { cs.len() };
    let piece = cs.subrange(start as int, end as int);
    assert forall|i: int| 0 <= i < piece.len() implies !is_ws(#[trigger] piece[i]) by {
        assert(piece[i] == cs[start + i]);
    }
    lemma_trim_solid(piece);
    assert(0 * (st as int) == 0);
    if end == cs.len() {
        assert(w == seq![piece]);
        assert(w[0] == cs.subrange((start + 0 * st) as int, end as int));
    } else {
        let rest = window_chunks(cs, start + st, max, st);
        lemma_windows_exact(cs, start + st, max, st);
        assert(w == seq![piece] + rest);
        assert forall|j: int| 0 <= j < w.len() implies {
            &&& #[trigger] w[j] == cs.subrange(
                start + j * st,
                if start + j * st + max < cs.len() { start + j * st + max } else { cs.len() as int },
            )
            &&& (j < w.len() - 1 ==> start + j * st + max < cs.len())
        } by {
            if j > 0 {
                lemma_step_shift(start, st, j);
                assert(w[j] == rest[j - 1]);
            } else {
                assert(w[0] == piece);
            }
        }
        lemma_step_shift(start, st, w.len() - 1);
    }
}

/// Windows start exactly `max_chars - ov` characters apart, where `ov` is
/// the overlap asked for, capped at a quarter window: on a text without
/// whitespace (so that no window trims away), chunk `k` is
/// `text[k * step .. min(k * step + max_chars, len)]`, every chunk but the
/// last ends before the end of the text, and the last one reaches it.
pub proof fn law_chunk_windows_step(text: Seq<char>, max_chars: nat, overlap: nat)
    requires
        max_chars > 0,
        text.len() > max_chars,
        forall|i: int| 0 <= i < text.len() ==> !is_ws(#[trigger] text[i]),
    ensures
        ({
            let ov: int = if overlap <= max_chars / 4 { overlap as int } else { (max_chars / 4) as int };
            let step: int = max_chars - ov;
            let c = chunk_spec(text, max_chars, overlap);
            &&& c.len() >= 1
            &&& forall|k: int|
                0 <= k < c.len() ==> {
                    &&& #[trigger] c[k] == text.subrange(
                        k * step,
                        if k * step + max_chars < text.len() { k * step + max_chars } else { text.len() as int },
                    )
                    &&& (k < c.len() - 1 ==> k * step + max_chars < text.len())
                }
            &&& (c.len() - 1) * step + max_chars >= text.len()
        }),
{
    let st = chunk_step(max_chars, overlap);
    lemma_windows_exact(text, 0, max_chars, st);
}

} // verus!
