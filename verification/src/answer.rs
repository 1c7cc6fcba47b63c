//! Building the question prompt from retrieved chunks, previews of what was
//! retrieved, the list of sources, and reading a yes/no confirmation.
use vstd::prelude::*;

use crate::store::SearchResult;
use crate::text::{
    ascii_lower_seq, chars_of, collapse_whitespace, collapse_ws, decimal, push_char, push_decimal,
    push_range, push_str, to_ascii_lower_char, trim, trim_range,
};

verus! {

/// The instructions given to the chat model with every question.
pub const SYSTEM_PROMPT: &'static str = "You are a helpful assistant. Answer the user's question using ONLY the provided context. If the context does not contain the answer, say you don't know rather than guessing. Be concise.";

/// How many characters of a retrieved chunk a preview shows.
pub const PREVIEW_CHARS: usize = 200;

/// The context part of a prompt: each retrieved chunk numbered from 1, with
/// its source path, under a `Context:` heading.
pub open spec fn prompt_context(results: Seq<SearchResult>) -> Seq<char>
    decreases results.len(),
{
    if results.len() == 0 {
        "Context:\n"@
    } else {
        let r = results.last();
        prompt_context(results.drop_last()) + "\n["@ + decimal(results.len()) + "] ("@
            + r.source_path@ + ")\n"@ + r.content@ + "\n"@
    }
}

/// The prompt for a question: the context, then the question.
pub open spec fn prompt(question: Seq<char>, results: Seq<SearchResult>) -> Seq<char> {
    prompt_context(results) + "\nQuestion: "@ + question
}

/// Builds the user prompt: the retrieved chunks, numbered and labelled with
/// their source, followed by the question.
pub fn build_prompt(question: &str, results: &[SearchResult]) -> (r: String)
    ensures
        r@ == prompt(question@, results@),
{
    let mut p = String::new();
    push_str(&mut p, "Context:\n");
    let mut i: usize = 0;
    proof {
        assert(results@.subrange(0, 0) =~= Seq::<SearchResult>::empty());
        assert(p@ =~= "Context:\n"@);
    }
    while i < results.len()
        invariant
            i <= results@.len(),
            p@ == prompt_context(results@.subrange(0, i as int)),
        decreases results.len() - i,
    {
        let r = &results[i];
        let ghost before = p@;
        push_str(&mut p, "\n[");
        push_decimal(&mut p, (i + 1) as u64);
        push_str(&mut p, "] (");
        push_str(&mut p, r.source_path.as_str());
        push_str(&mut p, ")\n");
        push_str(&mut p, r.content.as_str());
        push_str(&mut p, "\n");
        proof {
            let next = results@.subrange(0, i + 1);
            assert(next.drop_last() =~= results@.subrange(0, i as int));
            assert(next.last() == *r);
            assert(next.len() == i + 1);
            assert(p@ =~= before + "\n["@ + decimal((i + 1) as nat) + "] ("@ + r.source_path@
                + ")\n"@ + r.content@ + "\n"@);
        }
        i = i + 1;
    }
    proof {
        assert(results@.subrange(0, results@.len() as int) =~= results@);
    }
    let ghost before = p@;
    push_str(&mut p, "\nQuestion: ");
    push_str(&mut p, question);
    proof {
        assert(p@ =~= before + "\nQuestion: "@ + question@);
    }
    p
}

/// A preview of chunk text: runs of whitespace collapsed to single spaces,
/// cut to [`PREVIEW_CHARS`] characters with `…` marking a cut.
pub open spec fn preview_of(content: Seq<char>) -> Seq<char> {
    let c = collapse_ws(content);
    if c.len() > PREVIEW_CHARS {
        c.take(PREVIEW_CHARS as int).push('…')
    } else {
        c
    }
}

/// The preview shown for a retrieved chunk.
pub fn preview(content: &str) -> (r: String)
    ensures
        r@ == preview_of(content@),
{
    let v = chars_of(content);
    let collapsed = collapse_whitespace(&v);
    let c = chars_of(collapsed.as_str());
    if c.len() > PREVIEW_CHARS {
        let mut r = String::new();
        push_range(&mut r, &c, 0, PREVIEW_CHARS);
        push_char(&mut r, '…');
        proof {
            assert(Seq::<char>::empty() + c@.subrange(0, PREVIEW_CHARS as int) =~= c@.take(
                PREVIEW_CHARS as int,
            ));
        }
        r
    } else {
        collapsed
    }
}

/// The source paths of the results, each once, in order of first
/// appearance.
pub open spec fn unique_sources(results: Seq<SearchResult>) -> Seq<Seq<char>>
    decreases results.len(),
{
    if results.len() == 0 {
        Seq::empty()
    } else {
        let u = unique_sources(results.drop_last());
        let p = results.last().source_path@;
        if u.contains(p) {
            u
        } else {
            u.push(p)
        }
    }
}

/// Lists the sources of the results, each once, in order of first
/// appearance.
pub fn sources(results: &[SearchResult]) -> (r: Vec<String>)
    ensures
        r@.map_values(|s: String| s@) == unique_sources(results@),
{
    let mut seen: Vec<String> = Vec::new();
    let mut i: usize = 0;
    proof {
        assert(results@.subrange(0, 0) =~= Seq::<SearchResult>::empty());
        assert(seen@.map_values(|s: String| s@) =~= Seq::<Seq<char>>::empty());
    }
    while i < results.len()
        invariant
            i <= results@.len(),
            seen@.map_values(|s: String| s@) == unique_sources(results@.subrange(0, i as int)),
        decreases results.len() - i,
    {
        let path = &results[i].source_path;
        let ghost u = seen@.map_values(|s: String| s@);
        proof {
            let next = results@.subrange(0, i + 1);
            assert(next.drop_last() =~= results@.subrange(0, i as int));
            assert(next.last() == results@[i as int]);
        }
        let mut found = false;
        let mut j: usize = 0;
        while j < seen.len()
            invariant
                u == seen@.map_values(|s: String| s@),
                j <= seen@.len(),
                found == exists|k: int| 0 <= k < j && u[k] == path@,
            decreases seen.len() - j,
        {
            if seen[j] == *path {
                proof {
                    assert(u[j as int] == path@);
                }
                found = true;
            }
            j = j + 1;
        }
        if !found {
            seen.push(path.clone());
            proof {
                assert(!u.contains(path@));
                assert(seen@.map_values(|s: String| s@) =~= u.push(path@));
            }
        } else {
            proof {
                let k = choose|k: int| 0 <= k < u.len() && u[k] == path@;
                assert(u.contains(path@));
            }
        }
        i = i + 1;
    }
    proof {
        assert(results@.subrange(0, results@.len() as int) =~= results@);
    }
    seen
}

/// The answer is a yes: trimmed and lower-cased it reads `y` or `yes`. No
/// character but `Y`, `E` and `S` lower-cases to `y`, `e` or `s`, so ASCII
/// case folding decides this as full lower-casing does.
pub open spec fn means_yes(answer: Seq<char>) -> bool {
    let t = ascii_lower_seq(trim(answer));
    t == seq!['y'] || t == seq!['y', 'e', 's']
}

/// Whether a confirmation answer is a yes (`y` or `yes`, in any case,
/// surrounding whitespace ignored).
pub fn is_yes(answer: &str) -> (r: bool)
    ensures
        r == means_yes(answer@),
{
    let v = chars_of(answer);
    let (lo, hi) = trim_range(&v, 0, v.len());
    proof {
        assert(v@.subrange(0, v@.len() as int) =~= v@);
    }
    let ghost t = ascii_lower_seq(trim(answer@));
    let n = hi - lo;
    if n == 1 {
        let a = to_ascii_lower_char(v[lo]);
        proof {
            assert(t.len() == 1 && t[0] == a);
        }
        if a == 'y' {
            assert(t =~= seq!['y']);
            return true;
        }
        proof {
            if t == seq!['y'] {
                assert(t[0] == 'y');
            }
        }
        return false;
    }
    if n == 3 {
        let a = to_ascii_lower_char(v[lo]);
        let b = to_ascii_lower_char(v[lo + 1]);
        let c = to_ascii_lower_char(v[lo + 2]);
        proof {
            assert(t.len() == 3 && t[0] == a && t[1] == b && t[2] == c);
        }
        if a == 'y' && b == 'e' && c == 's' {
            assert(t =~= seq!['y', 'e', 's']);
            return true;
        }
        proof {
            if t == seq!['y', 'e', 's'] {
                assert(t[0] == 'y' && t[1] == 'e' && t[2] == 's');
            }
        }
        return false;
    }
    proof {
        assert(t.len() == n);
        assert(seq!['y'].len() == 1);
        assert(seq!['y', 'e', 's'].len() == 3);
    }
    false
}

} // verus!
