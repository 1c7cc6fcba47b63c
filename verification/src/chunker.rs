//! Splitting document text into overlapping chunks for embedding.
use vstd::prelude::*;

use crate::text::{
    all_ws, chars_of, is_trimmed, is_whitespace, is_ws, lemma_trim_bounds, lemma_trim_keeps,
    lemma_trim_props, string_from_range, trim, trim_lo, trim_range,
};

verus! {

/// Start of the part of the window `[start, hard_end)` in which a break is
/// looked for: its last third.
pub open spec fn search_from(start: int, hard_end: int) -> int {
    start + (hard_end - start) * 2 / 3
}

/// Position `i` ends a paragraph: a newline right after another newline.
pub open spec fn is_paragraph_break(chars: Seq<char>, i: int) -> bool {
    chars[i] == '\n' && i > 0 && chars[i - 1] == '\n'
}

/// Position `i` holds a newline.
pub open spec fn is_line_break(chars: Seq<char>, i: int) -> bool {
    chars[i] == '\n'
}

/// Position `i` holds whitespace other than a newline.
pub open spec fn is_space_break(chars: Seq<char>, i: int) -> bool {
    chars[i] != '\n' && is_ws(chars[i])
}

/// The kinds of break, from most to least preferred.
pub enum BreakKind {
    Paragraph,
    Line,
    Space,
}

/// Position `i` is a break of the given kind.
pub open spec fn is_break(chars: Seq<char>, kind: BreakKind, i: int) -> bool {
    match kind {
        BreakKind::Paragraph => is_paragraph_break(chars, i),
        BreakKind::Line => is_line_break(chars, i),
        BreakKind::Space => is_space_break(chars, i),
    }
}

/// The largest `i` in `[lo, hi)` that is a break of the given kind, if any.
pub open spec fn last_break(chars: Seq<char>, kind: BreakKind, lo: int, hi: int) -> Option<int>
    decreases hi - lo,
{
    if hi <= lo {
        None
    } else if is_break(chars, kind, hi - 1) {
        Some(hi - 1)
    } else {
        last_break(chars, kind, lo, hi - 1)
    }
}

/// Where a window `[start, hard_end)` that does not reach the end of the
/// text is cut: after the last paragraph break in its last third, else after
/// the last newline there, else after the last other whitespace there, else
/// at `hard_end`.
pub open spec fn break_position(chars: Seq<char>, start: int, hard_end: int) -> int {
    let from = search_from(start, hard_end);
    match last_break(chars, BreakKind::Paragraph, from, hard_end) {
        Some(i) => i + 1,
        None => match last_break(chars, BreakKind::Line, from, hard_end) {
            Some(i) => i + 1,
            None => match last_break(chars, BreakKind::Space, from, hard_end) {
                Some(i) => i + 1,
                None => hard_end,
            },
        },
    }
}

/// End of the window that starts at `start`.
pub open spec fn window_end(chars: Seq<char>, chunk_size: int, start: int) -> int {
    let hard_end = if start + chunk_size < chars.len() {
        start + chunk_size
    } else {
        chars.len() as int
    };
    if hard_end == chars.len() {
        hard_end
    } else {
        break_position(chars, start, hard_end)
    }
}

/// Start of the window that follows the window `[start, end)`: `overlap`
/// characters before `end`, but always past `start`.
pub open spec fn next_start(start: int, end: int, overlap: int) -> int {
    let back = if end - overlap > 0 {
        end - overlap
    } else {
        0
    };
    if back > start + 1 {
        back
    } else {
        start + 1
    }
}

/// The chunks cut from `chars` by the windows from `start` on: each window
/// trimmed, whitespace-only windows dropped.
pub open spec fn chunks_from(chars: Seq<char>, chunk_size: int, overlap: int, start: int) -> Seq<
    Seq<char>,
>
    decreases chars.len() - start,
{
    if start < 0 || start >= chars.len() || chunk_size <= 0 || overlap < 0 {
        Seq::empty()
    } else {
        let end = window_end(chars, chunk_size, start);
        let piece = trim(chars.subrange(start, end));
        let rest = if end >= chars.len() {
            Seq::empty()
        } else {
            proof {
                assert(start < next_start(start, end, overlap) <= chars.len());
            }
            chunks_from(chars, chunk_size, overlap, next_start(start, end, overlap))
        };
        if piece.len() > 0 {
            seq![piece] + rest
        } else {
            rest
        }
    }
}

/// The chunks of a whole text.
pub open spec fn chunks_of(text: Seq<char>, chunk_size: int, overlap: int) -> Seq<Seq<char>> {
    chunks_from(text, chunk_size, overlap, 0)
}

/// `piece` stands in `text` at `offset`.
pub open spec fn occurs_at(text: Seq<char>, piece: Seq<char>, offset: int) -> bool {
    0 <= offset && offset + piece.len() <= text.len() && text.subrange(
        offset,
        offset + piece.len(),
    ) == piece
}

/// Position `p` of `text` lies inside one of `chunks`, found verbatim in
/// `text` around it.
pub open spec fn covers(text: Seq<char>, chunks: Seq<Seq<char>>, p: int) -> bool {
    exists|k: int, o: int|
        0 <= k < chunks.len() && o <= p < o + chunks[k].len() && #[trigger] occurs_at(
            text,
            chunks[k],
            o,
        )
}

pub proof fn lemma_last_break(chars: Seq<char>, kind: BreakKind, lo: int, hi: int)
    ensures
        last_break(chars, kind, lo, hi) matches Some(i) ==> lo <= i < hi && is_break(
            chars,
            kind,
            i,
        ) && forall|k: int| i < k < hi ==> !#[trigger] is_break(chars, kind, k),
        last_break(chars, kind, lo, hi) is None ==> forall|k: int|
            lo <= k < hi ==> !#[trigger] is_break(chars, kind, k),
    decreases hi - lo,
{
    if hi > lo && !is_break(chars, kind, hi - 1) {
        lemma_last_break(chars, kind, lo, hi - 1);
    }
}

/// The cut lies inside the window: `start < cut <= hard_end`.
pub proof fn lemma_break_position_bounds(chars: Seq<char>, start: int, hard_end: int)
    requires
        0 <= start < hard_end,
    ensures
        start < break_position(chars, start, hard_end) <= hard_end,
{
    let from = search_from(start, hard_end);
    assert(start <= from) by (nonlinear_arith)
        requires
            from == start + (hard_end - start) * 2 / 3,
            start < hard_end,
    ;
    lemma_last_break(chars, BreakKind::Paragraph, from, hard_end);
    lemma_last_break(chars, BreakKind::Line, from, hard_end);
    lemma_last_break(chars, BreakKind::Space, from, hard_end);
}

/// Windows move forward and stay within the text and within `chunk_size`.
pub proof fn lemma_window_bounds(chars: Seq<char>, chunk_size: int, overlap: int, start: int)
    requires
        0 <= start < chars.len(),
        chunk_size > 0,
        0 <= overlap,
    ensures
        start < window_end(chars, chunk_size, start) <= chars.len(),
        window_end(chars, chunk_size, start) - start <= chunk_size,
        start < next_start(start, window_end(chars, chunk_size, start), overlap) <= window_end(
            chars,
            chunk_size,
            start,
        ),
{
    let hard_end = if start + chunk_size < chars.len() {
        start + chunk_size
    } else {
        chars.len() as int
    };
    if hard_end != chars.len() {
        lemma_break_position_bounds(chars, start, hard_end);
    }
}

/// Every chunk from `start` on is non-empty, trimmed, at most `chunk_size`
/// long, and stands in the text at or after `start`.
pub proof fn lemma_chunks_from_shape(chars: Seq<char>, chunk_size: int, overlap: int, start: int)
    requires
        chunk_size > 0,
        0 <= overlap,
    ensures
        forall|k: int|
            0 <= k < chunks_from(chars, chunk_size, overlap, start).len() ==> {
                let c = #[trigger] chunks_from(chars, chunk_size, overlap, start)[k];
                &&& 0 < c.len() <= chunk_size
                &&& is_trimmed(c)
                &&& exists|o: int| o >= start && occurs_at(chars, c, o)
            },
    decreases chars.len() - start,
{
    if 0 <= start < chars.len() {
        lemma_window_bounds(chars, chunk_size, overlap, start);
        let end = window_end(chars, chunk_size, start);
        let w = chars.subrange(start, end);
        let piece = trim(w);
        lemma_trim_props(w);
        lemma_trim_bounds(w);
        let ns = next_start(start, end, overlap);
        if end < chars.len() {
            lemma_chunks_from_shape(chars, chunk_size, overlap, ns);
        }
        let rest = if end >= chars.len() {
            Seq::<Seq<char>>::empty()
        } else {
            chunks_from(chars, chunk_size, overlap, ns)
        };
        let all = chunks_from(chars, chunk_size, overlap, start);
        assert forall|k: int| 0 <= k < all.len() implies {
            let c = #[trigger] all[k];
            &&& 0 < c.len() <= chunk_size
            &&& is_trimmed(c)
            &&& exists|o: int| o >= start && occurs_at(chars, c, o)
        } by {
            if piece.len() > 0 && k == 0 {
                let o = start + trim_lo(w);
                assert(chars.subrange(o, o + piece.len()) == piece);
                assert(occurs_at(chars, piece, o));
            } else {
                let j = if piece.len() > 0 {
                    k - 1
                } else {
                    k
                };
                assert(all[k] == rest[j]);
                let c = rest[j];
                let o = choose|o: int| o >= ns && occurs_at(chars, c, o);
                assert(o >= start && occurs_at(chars, c, o));
            }
        }
    }
}

/// No non-whitespace character is lost: each lies inside some chunk.
pub proof fn lemma_chunks_from_cover(
    chars: Seq<char>,
    chunk_size: int,
    overlap: int,
    start: int,
    p: int,
)
    requires
        chunk_size > 0,
        0 <= overlap,
        0 <= start <= p < chars.len(),
        !is_ws(chars[p]),
    ensures
        covers(chars, chunks_from(chars, chunk_size, overlap, start), p),
    decreases chars.len() - start,
{
    lemma_window_bounds(chars, chunk_size, overlap, start);
    let end = window_end(chars, chunk_size, start);
    let w = chars.subrange(start, end);
    let piece = trim(w);
    lemma_trim_bounds(w);
    let ns = next_start(start, end, overlap);
    let all = chunks_from(chars, chunk_size, overlap, start);
    if p < end {
        lemma_trim_keeps(w, p - start);
        let o = start + trim_lo(w);
        assert(chars.subrange(o, o + piece.len()) == piece);
        assert(all[0] == piece);
        assert(occurs_at(chars, all[0], o));
        assert(o <= p < o + all[0].len());
    } else {
        lemma_chunks_from_cover(chars, chunk_size, overlap, ns, p);
        let rest = chunks_from(chars, chunk_size, overlap, ns);
        let (k, o) = choose|k: int, o: int|
            0 <= k < rest.len() && o <= p < o + rest[k].len() && occurs_at(chars, rest[k], o);
        let k2 = if piece.len() > 0 {
            k + 1
        } else {
            k
        };
        assert(all[k2] == rest[k]);
        assert(o <= p < o + all[k2].len() && occurs_at(chars, all[k2], o));
    }
}

/// Laws of chunking, for a chunk size above zero and an overlap below it:
/// every chunk is non-empty, at most `chunk_size` characters long, carries
/// no leading or trailing whitespace and stands verbatim in the text; every
/// non-whitespace character of the text lies inside some chunk; so there are
/// no chunks exactly when the text is whitespace only.
pub proof fn lemma_chunking_laws(text: Seq<char>, chunk_size: int, overlap: int)
    requires
        chunk_size > 0,
        0 <= overlap < chunk_size,
    ensures
        forall|k: int|
            0 <= k < chunks_of(text, chunk_size, overlap).len() ==> {
                let c = #[trigger] chunks_of(text, chunk_size, overlap)[k];
                &&& 0 < c.len() <= chunk_size
                &&& is_trimmed(c)
                &&& exists|o: int| occurs_at(text, c, o)
            },
        forall|p: int|
            0 <= p < text.len() && !is_ws(#[trigger] text[p]) ==> covers(
                text,
                chunks_of(text, chunk_size, overlap),
                p,
            ),
        chunks_of(text, chunk_size, overlap).len() == 0 <==> all_ws(text),
{
    lemma_chunks_from_shape(text, chunk_size, overlap, 0);
    assert forall|p: int| 0 <= p < text.len() && !is_ws(#[trigger] text[p]) implies covers(
        text,
        chunks_of(text, chunk_size, overlap),
        p,
    ) by {
        lemma_chunks_from_cover(text, chunk_size, overlap, 0, p);
    }
    let cs = chunks_of(text, chunk_size, overlap);
    if cs.len() == 0 && !all_ws(text) {
        let p = choose|p: int| 0 <= p < text.len() && !is_ws(text[p]);
        lemma_chunks_from_cover(text, chunk_size, overlap, 0, p);
    }
    if cs.len() > 0 && all_ws(text) {
        let c = cs[0];
        let o = choose|o: int| occurs_at(text, c, o);
        assert(text.subrange(o, o + c.len())[0] == text[o]);
        assert(is_ws(text[o]));
    }
}

/// `i` ends a paragraph in `chars`: a newline right after another newline.
pub open spec fn ends_paragraph(chars: Seq<char>, i: int) -> bool {
    0 < i < chars.len() && chars[i] == '\n' && chars[i - 1] == '\n'
}

/// Where a window `[start, hard_end)` that stops short of the end of the
/// text is cut, in terms of the characters of its last third
/// `[from, hard_end)`, `from = start + (hard_end - start) * 2 / 3`: one past
/// the last paragraph break there; when there is none, one past the last
/// newline there; when there is no newline, one past the last whitespace
/// there; when there is no whitespace, at `hard_end`.
pub proof fn lemma_cut_prefers_paragraphs(chars: Seq<char>, start: int, hard_end: int)
    requires
        0 <= start < hard_end <= chars.len(),
    ensures
        (exists|i: int| start + (hard_end - start) * 2 / 3 <= i < hard_end && #[trigger] ends_paragraph(chars, i)) ==> {
            &&& start + (hard_end - start) * 2 / 3 <= break_position(chars, start, hard_end) - 1 < hard_end
            &&& ends_paragraph(chars, break_position(chars, start, hard_end) - 1)
            &&& forall|j: int| break_position(chars, start, hard_end) - 1 < j < hard_end ==> !#[trigger] ends_paragraph(chars, j)
        },
        (forall|i: int| start + (hard_end - start) * 2 / 3 <= i < hard_end ==> !#[trigger] ends_paragraph(chars, i)) && (exists|
            i: int,
        | start + (hard_end - start) * 2 / 3 <= i < hard_end && #[trigger] chars[i] == '\n') ==> {
            &&& start + (hard_end - start) * 2 / 3 <= break_position(chars, start, hard_end) - 1 < hard_end
            &&& chars[break_position(chars, start, hard_end) - 1] == '\n'
            &&& forall|j: int| break_position(chars, start, hard_end) - 1 < j < hard_end ==> #[trigger] chars[j] != '\n'
        },
        (forall|i: int| start + (hard_end - start) * 2 / 3 <= i < hard_end ==> #[trigger] chars[i] != '\n') && (exists|i: int|
            start + (hard_end - start) * 2 / 3 <= i < hard_end && is_ws(#[trigger] chars[i])) ==> {
            &&& start + (hard_end - start) * 2 / 3 <= break_position(chars, start, hard_end) - 1 < hard_end
            &&& is_ws(chars[break_position(chars, start, hard_end) - 1])
            &&& forall|j: int| break_position(chars, start, hard_end) - 1 < j < hard_end ==> !is_ws(#[trigger] chars[j])
        },
        (forall|i: int| start + (hard_end - start) * 2 / 3 <= i < hard_end ==> !is_ws(#[trigger] chars[i])) ==> break_position(chars, start, hard_end) == hard_end,
{
    let from = search_from(start, hard_end);
    assert(start <= from) by (nonlinear_arith)
        requires
            from == start + (hard_end - start) * 2 / 3,
            start < hard_end,
    ;
    lemma_last_break(chars, BreakKind::Paragraph, from, hard_end);
    lemma_last_break(chars, BreakKind::Line, from, hard_end);
    lemma_last_break(chars, BreakKind::Space, from, hard_end);
    let cut = break_position(chars, start, hard_end);
    if exists|i: int| from <= i < hard_end && #[trigger] ends_paragraph(chars, i) {
        let i = choose|i: int| from <= i < hard_end && #[trigger] ends_paragraph(chars, i);
        assert(is_break(chars, BreakKind::Paragraph, i));
        assert forall|j: int| cut - 1 < j < hard_end implies !#[trigger] ends_paragraph(chars, j) by {
            if ends_paragraph(chars, j) {
                assert(is_break(chars, BreakKind::Paragraph, j));
            }
        }
    } else {
        assert forall|i: int| from <= i < hard_end implies !is_break(chars, BreakKind::Paragraph, i) by {
            if is_break(chars, BreakKind::Paragraph, i) {
                assert(ends_paragraph(chars, i));
            }
        }
        if exists|i: int| from <= i < hard_end && #[trigger] chars[i] == '\n' {
            let i = choose|i: int| from <= i < hard_end && #[trigger] chars[i] == '\n';
            assert(is_break(chars, BreakKind::Line, i));
            assert forall|j: int| cut - 1 < j < hard_end implies #[trigger] chars[j] != '\n' by {
                if chars[j] == '\n' {
                    assert(is_break(chars, BreakKind::Line, j));
                }
            }
        } else {
            assert forall|i: int| from <= i < hard_end implies !is_break(chars, BreakKind::Line, i) by {
                if is_break(chars, BreakKind::Line, i) {
                    assert(chars[i] == '\n');
                }
            }
            if exists|i: int| from <= i < hard_end && is_ws(#[trigger] chars[i]) {
                let i = choose|i: int| from <= i < hard_end && is_ws(#[trigger] chars[i]);
                assert(is_break(chars, BreakKind::Space, i));
                assert forall|j: int| cut - 1 < j < hard_end implies !is_ws(#[trigger] chars[j]) by {
                    if is_ws(chars[j]) {
                        assert(is_break(chars, BreakKind::Space, j));
                    }
                }
            } else {
                assert forall|i: int| from <= i < hard_end implies !is_break(chars, BreakKind::Space, i) by {
                    if is_break(chars, BreakKind::Space, i) {
                        assert(is_ws(chars[i]));
                    }
                }
            }
        }
    }
}

/// The first chunk of a text longer than `chunk_size` is the part before the
/// cut of the first window `[0, chunk_size)`, trimmed, when that part holds
/// any text.
pub proof fn lemma_first_chunk(text: Seq<char>, chunk_size: int, overlap: int)
    requires
        0 < chunk_size < text.len(),
        0 <= overlap < chunk_size,
        !all_ws(text.subrange(0, break_position(text, 0, chunk_size))),
    ensures
        chunks_of(text, chunk_size, overlap).len() > 0,
        chunks_of(text, chunk_size, overlap)[0] == trim(
            text.subrange(0, break_position(text, 0, chunk_size)),
        ),
{
    let piece = text.subrange(0, break_position(text, 0, chunk_size));
    lemma_trim_props(piece);
    assert(window_end(text, chunk_size, 0) == break_position(text, 0, chunk_size));
}

/// Splits text into chunks of at most `chunk_size` characters with `overlap`
/// characters carried over between consecutive windows. Prefers to break at
/// a paragraph boundary, then at a line break, then at whitespace.
pub fn chunk_text(text: &str, chunk_size: usize, overlap: usize) -> (chunks: Vec<String>)
    requires
        chunk_size > 0,
        overlap < chunk_size,
    ensures
        chunks@.map_values(|c: String| c@) == chunks_of(text@, chunk_size as int, overlap as int),
{
    let chars = chars_of(text);
    let n = chars.len();
    let ghost cs = chunk_size as int;
    let ghost ov = overlap as int;
    let mut chunks: Vec<String> = Vec::new();
    let mut start: usize = 0;
    proof {
        assert(chunks@.map_values(|c: String| c@) + chunks_from(chars@, cs, ov, 0) == chunks_from(
            chars@,
            cs,
            ov,
            0,
        ));
    }
    while start < n
        invariant_except_break
            chunks@.map_values(|c: String| c@) + chunks_from(chars@, cs, ov, start as int)
                == chunks_from(chars@, cs, ov, 0),
        invariant
            chars@ == text@,
            n == chars@.len(),
            cs == chunk_size,
            ov == overlap,
            chunk_size > 0,
            overlap < chunk_size,
            start <= n,
        ensures
            chunks@.map_values(|c: String| c@) == chunks_from(chars@, cs, ov, 0),
        decreases n - start,
    {
        let hard_end = if chunk_size < n - start {
            start + chunk_size
        } else {
            n
        };
        let end = if hard_end == n {
            hard_end
        } else {
            find_break(&chars, start, hard_end)
        };
        proof {
            lemma_window_bounds(chars@, cs, ov, start as int);
        }
        assert(end == window_end(chars@, cs, start as int));
        let (lo, hi) = trim_range(&chars, start, end);
        let ghost before = chunks@.map_values(|c: String| c@);
        let ghost piece = trim(chars@.subrange(start as int, end as int));
        if lo < hi {
            let chunk = string_from_range(&chars, lo, hi);
            chunks.push(chunk);
            proof {
                assert(chunks@.map_values(|c: String| c@) == before.push(piece));
            }
        }
        if end == n {
            proof {
                if lo < hi {
                    assert(chunks_from(chars@, cs, ov, start as int) == seq![piece]);
                    assert(before + seq![piece] == before.push(piece));
                } else {
                    assert(chunks_from(chars@, cs, ov, start as int) == Seq::<Seq<char>>::empty());
                    assert(before + Seq::<Seq<char>>::empty() == before);
                }
            }
            break;
        }
        let back = if end > overlap {
            end - overlap
        } else {
            0
        };
        let ghost old_start = start;
        start = if back > start + 1 {
            back
        } else {
            start + 1
        };
        proof {
            assert(start == next_start(old_start as int, end as int, ov));
            let rest = chunks_from(chars@, cs, ov, start as int);
            if lo < hi {
                assert(before + (seq![piece] + rest) == before.push(piece) + rest);
            }
        }
    }
    chunks
}

/// Picks a break position in `(start, hard_end]`, preferring paragraph
/// breaks, then newlines, then whitespace within the last third of the
/// window.
fn find_break(chars: &Vec<char>, start: usize, hard_end: usize) -> (r: usize)
    requires
        start < hard_end <= chars@.len(),
    ensures
        r == break_position(chars@, start as int, hard_end as int),
{
    let ghost s = chars@;
    let w = hard_end - start;
    let from = start + ((w / 3) * 2 + ((w % 3) * 2) / 3);
    proof {
        assert((w / 3) * 2 + ((w % 3) * 2) / 3 == w * 2 / 3) by (nonlinear_arith)
            requires
                w >= 0,
        ;
    }
    assert(from == search_from(start as int, hard_end as int));
    let mut newline_at: Option<usize> = None;
    let mut space_at: Option<usize> = None;
    let mut i = hard_end;
    while i > from
        invariant
            s == chars@,
            start <= from <= i <= hard_end <= s.len(),
            from == search_from(start as int, hard_end as int),
            last_break(s, BreakKind::Paragraph, i as int, hard_end as int) is None,
            match newline_at {
                None => last_break(s, BreakKind::Line, i as int, hard_end as int) is None,
                Some(x) => last_break(s, BreakKind::Line, i as int, hard_end as int) == Some((x - 1) as int) && x
                    >= 1,
            },
            match space_at {
                None => last_break(s, BreakKind::Space, i as int, hard_end as int) is None,
                Some(x) => last_break(s, BreakKind::Space, i as int, hard_end as int) == Some((x - 1) as int) && x
                    >= 1,
            },
        decreases i,
    {
        let ghost old_i = i;
        i = i - 1;
        proof {
            lemma_last_break_extend(s, BreakKind::Paragraph, i as int, hard_end as int);
            lemma_last_break_extend(s, BreakKind::Line, i as int, hard_end as int);
            lemma_last_break_extend(s, BreakKind::Space, i as int, hard_end as int);
        }
        let c = chars[i];
        if c == '\n' {
            if i > 0 && chars[i - 1] == '\n' {
                proof {
                    assert(is_break(s, BreakKind::Paragraph, i as int));
                    assert(last_break(s, BreakKind::Paragraph, i as int, hard_end as int) == Some(i as int));
                    lemma_last_break_up(s, BreakKind::Paragraph, from as int, i as int, hard_end as int);
                }
                return i + 1;
            }
            assert(!is_break(s, BreakKind::Paragraph, i as int));
            assert(is_break(s, BreakKind::Line, i as int));
            assert(!is_break(s, BreakKind::Space, i as int));
            if newline_at.is_none() {
                newline_at = Some(i + 1);
            }
        } else if is_whitespace(c) {
            assert(!is_break(s, BreakKind::Paragraph, i as int));
            assert(!is_break(s, BreakKind::Line, i as int));
            assert(is_break(s, BreakKind::Space, i as int));
            if space_at.is_none() {
                space_at = Some(i + 1);
            }
        } else {
            assert(!is_break(s, BreakKind::Paragraph, i as int));
            assert(!is_break(s, BreakKind::Line, i as int));
            assert(!is_break(s, BreakKind::Space, i as int));
        }
    }
    proof {
        assert(i == from);
    }
    match newline_at {
        Some(x) => x,
        None => match space_at {
            Some(x) => x,
            None => hard_end,
        },
    }
}

/// Stepping the lower bound down by one adds `lo` as the last candidate.
proof fn lemma_last_break_extend(chars: Seq<char>, kind: BreakKind, lo: int, hi: int)
    requires
        lo < hi,
    ensures
        last_break(chars, kind, lo, hi) == if last_break(chars, kind, lo + 1, hi) is Some {
            last_break(chars, kind, lo + 1, hi)
        } else if is_break(chars, kind, lo) {
            Some(lo)
        } else {
            None::<int>
        },
    decreases hi - lo,
{
    if lo + 1 < hi {
        if !is_break(chars, kind, hi - 1) {
            lemma_last_break_extend(chars, kind, lo, hi - 1);
        }
    } else {
        assert(last_break(chars, kind, lo, lo) is None);
        assert(last_break(chars, kind, lo + 1, hi) is None);
    }
}

/// A break found from `mid` on is also the last break from any `lo <= mid`.
proof fn lemma_last_break_up(chars: Seq<char>, kind: BreakKind, lo: int, mid: int, hi: int)
    requires
        lo <= mid <= hi,
        last_break(chars, kind, mid, hi) is Some,
    ensures
        last_break(chars, kind, lo, hi) == last_break(chars, kind, mid, hi),
    decreases mid - lo,
{
    if lo < mid {
        lemma_last_break_up(chars, kind, lo + 1, mid, hi);
        lemma_last_break_extend(chars, kind, lo, hi);
    }
}

} // verus!
