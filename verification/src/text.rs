//! Character-level helpers shared by the chunker, the parsers and the
//! prompt builders: Unicode whitespace, trimming, ASCII case folding and
//! small string builders.
use vstd::prelude::*;

verus! {

/// Unicode `White_Space`: the characters for which `char::is_whitespace`
/// holds.
pub open spec fn is_ws(c: char) -> bool {
    let u = c as u32;
    ||| 0x09 <= u <= 0x0d
    ||| u == 0x20
    ||| u == 0x85
    ||| u == 0xa0
    ||| u == 0x1680
    ||| 0x2000 <= u <= 0x200a
    ||| u == 0x2028
    ||| u == 0x2029
    ||| u == 0x202f
    ||| u == 0x205f
    ||| u == 0x3000
}

/// Executable Unicode whitespace test.
pub fn is_whitespace(c: char) -> (r: bool)
    ensures
        r == is_ws(c),
{
    let u = c as u32;
    (0x09 <= u && u <= 0x0d) || u == 0x20 || u == 0x85 || u == 0xa0 || u == 0x1680 || (0x2000
        <= u && u <= 0x200a) || u == 0x2028 || u == 0x2029 || u == 0x202f || u == 0x205f || u
        == 0x3000
}

/// Index of the first non-whitespace character at or after `i`, or `s.len()`.
pub open spec fn first_non_ws_from(s: Seq<char>, i: int) -> int
    decreases s.len() - i,
{
    if i >= s.len() {
        s.len() as int
    } else if !is_ws(s[i]) {
        i
    } else {
        first_non_ws_from(s, i + 1)
    }
}

/// One past the last non-whitespace character before `j`, or `0`.
pub open spec fn end_non_ws_before(s: Seq<char>, j: int) -> int
    decreases j,
{
    if j <= 0 {
        0
    } else if !is_ws(s[j - 1]) {
        j
    } else {
        end_non_ws_before(s, j - 1)
    }
}

/// Start of the trimmed part of `s`.
pub open spec fn trim_lo(s: Seq<char>) -> int {
    first_non_ws_from(s, 0)
}

/// End of the trimmed part of `s`.
pub open spec fn trim_hi(s: Seq<char>) -> int {
    if trim_lo(s) >= s.len() {
        trim_lo(s)
    } else {
        end_non_ws_before(s, s.len() as int)
    }
}

/// `s` without leading and trailing whitespace, as `str::trim` gives it.
pub open spec fn trim(s: Seq<char>) -> Seq<char> {
    s.subrange(trim_lo(s), trim_hi(s))
}

/// `s` has no leading or trailing whitespace.
pub open spec fn is_trimmed(s: Seq<char>) -> bool {
    s.len() > 0 ==> !is_ws(s[0]) && !is_ws(s[s.len() - 1])
}

/// `s` holds whitespace only (or nothing).
pub open spec fn all_ws(s: Seq<char>) -> bool {
    forall|k: int| 0 <= k < s.len() ==> is_ws(#[trigger] s[k])
}

pub proof fn lemma_first_non_ws_from(s: Seq<char>, i: int)
    requires
        0 <= i <= s.len(),
    ensures
        i <= first_non_ws_from(s, i) <= s.len(),
        forall|k: int| i <= k < first_non_ws_from(s, i) ==> is_ws(#[trigger] s[k]),
        first_non_ws_from(s, i) < s.len() ==> !is_ws(s[first_non_ws_from(s, i)]),
    decreases s.len() - i,
{
    if i < s.len() && is_ws(s[i]) {
        lemma_first_non_ws_from(s, i + 1);
    }
}

pub proof fn lemma_end_non_ws_before(s: Seq<char>, j: int)
    requires
        0 <= j <= s.len(),
    ensures
        0 <= end_non_ws_before(s, j) <= j,
        forall|k: int| end_non_ws_before(s, j) <= k < j ==> is_ws(#[trigger] s[k]),
        end_non_ws_before(s, j) > 0 ==> !is_ws(s[end_non_ws_before(s, j) - 1]),
    decreases j,
{
    if j > 0 && is_ws(s[j - 1]) {
        lemma_end_non_ws_before(s, j - 1);
    }
}

/// The bounds of the trimmed part: everything outside `[lo, hi)` is
/// whitespace, and the part itself starts and ends with non-whitespace.
pub proof fn lemma_trim_bounds(s: Seq<char>)
    ensures
        0 <= trim_lo(s) <= trim_hi(s) <= s.len(),
        forall|k: int| 0 <= k < trim_lo(s) ==> is_ws(#[trigger] s[k]),
        forall|k: int| trim_hi(s) <= k < s.len() ==> is_ws(#[trigger] s[k]),
        trim_lo(s) < trim_hi(s) ==> !is_ws(s[trim_lo(s)]) && !is_ws(s[trim_hi(s) - 1]),
        trim_lo(s) == trim_hi(s) ==> all_ws(s),
        trim_lo(s) < s.len() ==> trim_lo(s) < trim_hi(s),
{
    lemma_first_non_ws_from(s, 0);
    lemma_end_non_ws_before(s, s.len() as int);
    let lo = trim_lo(s);
    if lo < s.len() {
        // the non-whitespace at `lo` bounds the end from below
        assert(end_non_ws_before(s, s.len() as int) > lo) by {
            if end_non_ws_before(s, s.len() as int) <= lo {
                assert(is_ws(s[lo]));
            }
        }
    }
}

/// Trimming yields a trimmed sequence, and whitespace-only input trims to
/// nothing.
pub proof fn lemma_trim_props(s: Seq<char>)
    ensures
        is_trimmed(trim(s)),
        trim(s).len() == 0 <==> all_ws(s),
        trim(s).len() <= s.len(),
{
    lemma_trim_bounds(s);
    if all_ws(s) && trim_lo(s) < trim_hi(s) {
        assert(is_ws(s[trim_lo(s)]));
    }
}

/// A non-whitespace character survives trimming: it lies inside
/// `[trim_lo, trim_hi)`.
pub proof fn lemma_trim_keeps(s: Seq<char>, p: int)
    requires
        0 <= p < s.len(),
        !is_ws(s[p]),
    ensures
        trim_lo(s) <= p < trim_hi(s),
{
    lemma_trim_bounds(s);
    if p < trim_lo(s) {
        assert(is_ws(s[p]));
    }
    if p >= trim_hi(s) {
        assert(is_ws(s[p]));
    }
}

/// ASCII lower-casing of one character, as `char::to_ascii_lowercase`.
pub open spec fn ascii_lower(c: char) -> char {
    if 'A' <= c <= 'Z' {
        ((c as u32) + 32) as char
    } else {
        c
    }
}

/// ASCII lower-casing of a whole sequence.
pub open spec fn ascii_lower_seq(s: Seq<char>) -> Seq<char> {
    s.map_values(|c: char| ascii_lower(c))
}

pub fn to_ascii_lower_char(c: char) -> (r: char)
    ensures
        r == ascii_lower(c),
{
    if 'A' <= c && c <= 'Z' {
        let u: u32 = c as u32 + 32;
        assert(0x61 <= u <= 0x7a);
        let r = char_from_ascii(u);
        r
    } else {
        c
    }
}

/// The character with the given code, for codes of lower-case ASCII letters.
fn char_from_ascii(u: u32) -> (r: char)
    requires
        u < 0x80,
    ensures
        r == u as char,
        r as u32 == u,
{
    let b: u8 = u as u8;
    let r = b as char;
    r
}

/// The characters of `s`, in order.
pub fn chars_of(s: &str) -> (v: Vec<char>)
    ensures
        v@ == s@,
{
    let mut v: Vec<char> = Vec::new();
    for c in it: s.chars()
        invariant
            v@ == it.seq().take(it.index() as int),
    {
        v.push(c);
    }
    v
}

/// Appends one character (`String::push`).
#[verifier::external_body]
pub(crate) fn push_char(s: &mut String, c: char)
    ensures
        final(s)@ == old(s)@.push(c),
{
    s.push(c);
}

/// Appends a string slice (`String::push_str`).
#[verifier::external_body]
pub(crate) fn push_str(s: &mut String, t: &str)
    ensures
        final(s)@ == old(s)@ + t@,
{
    s.push_str(t);
}

/// The string made of `v[lo..hi]`.
pub fn string_from_range(v: &Vec<char>, lo: usize, hi: usize) -> (s: String)
    requires
        lo <= hi <= v@.len(),
    ensures
        s@ == v@.subrange(lo as int, hi as int),
{
    let mut s = String::new();
    let mut i = lo;
    while i < hi
        invariant
            lo <= i <= hi <= v@.len(),
            s@ == v@.subrange(lo as int, i as int),
        decreases hi - i,
    {
        push_char(&mut s, v[i]);
        assert(v@.subrange(lo as int, i + 1) == v@.subrange(lo as int, i as int).push(v@[i as int]));
        i = i + 1;
    }
    s
}

/// The bounds, within `v`, of the trimmed part of `v[lo..hi]`.
pub fn trim_range(v: &Vec<char>, lo: usize, hi: usize) -> (r: (usize, usize))
    requires
        lo <= hi <= v@.len(),
    ensures
        lo <= r.0 <= r.1 <= hi,
        r.0 == lo + trim_lo(v@.subrange(lo as int, hi as int)),
        r.1 == lo + trim_hi(v@.subrange(lo as int, hi as int)),
        v@.subrange(r.0 as int, r.1 as int) == trim(v@.subrange(lo as int, hi as int)),
{
    let ghost w = v@.subrange(lo as int, hi as int);
    proof {
        lemma_trim_bounds(w);
        lemma_first_non_ws_from(w, 0);
    }
    let mut a = lo;
    while a < hi && is_whitespace(v[a])
        invariant
            lo <= a <= hi <= v@.len(),
            w == v@.subrange(lo as int, hi as int),
            first_non_ws_from(w, (a - lo) as int) == first_non_ws_from(w, 0),
        decreases hi - a,
    {
        a = a + 1;
    }
    if a == hi {
        return (a, a);
    }
    let mut b = hi;
    proof {
        lemma_end_non_ws_before(w, w.len() as int);
    }
    while b > a && is_whitespace(v[b - 1])
        invariant
            lo <= a < hi,
            a < b <= hi <= v@.len(),
            !is_ws(v@[a as int]),
            w == v@.subrange(lo as int, hi as int),
            a - lo == trim_lo(w),
            end_non_ws_before(w, (b - lo) as int) == end_non_ws_before(w, w.len() as int),
        decreases b - a,
    {
        b = b - 1;
    }
    proof {
        lemma_end_non_ws_before(w, (b - lo) as int);
        assert(!is_ws(w[(b - lo) - 1]));
        assert(end_non_ws_before(w, (b - lo) as int) == (b - lo) as int);
        assert(v@.subrange(a as int, b as int) == w.subrange((a - lo) as int, (b - lo) as int));
    }
    (a, b)
}

/// The pieces of `s` between occurrences of `sep` (always at least one).
pub open spec fn split_on(s: Seq<char>, sep: char) -> Seq<Seq<char>>
    decreases s.len(),
{
    if s.len() == 0 {
        seq![Seq::empty()]
    } else {
        let rest = split_on(s.drop_last(), sep);
        if s.last() == sep {
            rest.push(Seq::empty())
        } else {
            rest.drop_last().push(rest.last().push(s.last()))
        }
    }
}

/// The pieces of `ls`, each trimmed, with the empty ones left out.
pub open spec fn kept_pieces(ls: Seq<Seq<char>>) -> Seq<Seq<char>>
    decreases ls.len(),
{
    if ls.len() == 0 {
        Seq::empty()
    } else {
        let done = kept_pieces(ls.drop_last());
        let t = trim(ls.last());
        if t.len() > 0 {
            done.push(t)
        } else {
            done
        }
    }
}

/// The pieces joined with `sep` between them.
pub open spec fn join_with(ls: Seq<Seq<char>>, sep: Seq<char>) -> Seq<char>
    decreases ls.len(),
{
    if ls.len() == 0 {
        Seq::empty()
    } else if ls.len() == 1 {
        ls[0]
    } else {
        join_with(ls.drop_last(), sep) + sep + ls.last()
    }
}

/// The non-blank lines of `s`, trimmed and joined with newlines.
pub open spec fn tidy_lines(s: Seq<char>) -> Seq<char> {
    join_with(kept_pieces(split_on(s, '\n')), seq!['\n'])
}

/// Appends `v[lo..hi]` to `out`.
pub fn push_range(out: &mut String, v: &Vec<char>, lo: usize, hi: usize)
    requires
        lo <= hi <= v@.len(),
    ensures
        final(out)@ == old(out)@ + v@.subrange(lo as int, hi as int),
{
    let mut i = lo;
    while i < hi
        invariant
            lo <= i <= hi <= v@.len(),
            out@ == old(out)@ + v@.subrange(lo as int, i as int),
        decreases hi - i,
    {
        push_char(out, v[i]);
        proof {
            assert(v@.subrange(lo as int, i + 1) =~= v@.subrange(lo as int, i as int).push(
                v@[i as int],
            ));
        }
        i = i + 1;
    }
}

/// Adds one more piece to a joined text: its trimmed form, after `sep` if
/// some piece is already kept, unless it is blank.
fn keep_piece(
    out: &mut String,
    any_kept: &mut bool,
    v: &Vec<char>,
    lo: usize,
    hi: usize,
    sep: char,
    Ghost(done): Ghost<Seq<Seq<char>>>,
)
    requires
        lo <= hi <= v@.len(),
        old(out)@ == join_with(kept_pieces(done), seq![sep]),
        *old(any_kept) == (kept_pieces(done).len() > 0),
    ensures
        final(out)@ == join_with(kept_pieces(done.push(v@.subrange(lo as int, hi as int))), seq![sep]),
        *final(any_kept) == (kept_pieces(done.push(v@.subrange(lo as int, hi as int))).len() > 0),
{
    let ghost line = v@.subrange(lo as int, hi as int);
    let ghost kept_before = kept_pieces(done);
    let (a, b) = trim_range(v, lo, hi);
    if a < b {
        if *any_kept {
            push_char(out, sep);
        }
        push_range(out, v, a, b);
        *any_kept = true;
    }
    proof {
        let nd = done.push(line);
        assert(nd.drop_last() =~= done);
        if trim(line).len() > 0 {
            let kn = kept_before.push(trim(line));
            assert(kn.drop_last() =~= kept_before);
            if kept_before.len() == 0 {
                assert(join_with(kn, seq![sep]) == kn[0]);
                assert(Seq::<char>::empty() + trim(line) =~= trim(line));
            }
        }
    }
}

/// Keeps the non-blank lines of `v`, each trimmed, joined with newlines:
/// `lines().map(str::trim).filter(|l| !l.is_empty())` joined by `"\n"`.
pub fn tidy_lines_of(v: &Vec<char>) -> (r: String)
    ensures
        r@ == tidy_lines(v@),
{
    let n = v.len();
    let mut out = String::new();
    let mut any_kept = false;
    let mut line_start: usize = 0;
    let mut i: usize = 0;
    let ghost mut done: Seq<Seq<char>> = Seq::empty();
    proof {
        assert(v@.subrange(0, 0) =~= Seq::<char>::empty());
    }
    while i < n
        invariant
            n == v@.len(),
            line_start <= i <= n,
            split_on(v@.subrange(0, i as int), '\n') == done.push(
                v@.subrange(line_start as int, i as int),
            ),
            out@ == join_with(kept_pieces(done), seq!['\n']),
            any_kept == (kept_pieces(done).len() > 0),
        decreases n - i,
    {
        proof {
            assert(v@.subrange(0, i + 1).drop_last() =~= v@.subrange(0, i as int));
            assert(v@.subrange(0, i + 1).last() == v@[i as int]);
        }
        if v[i] == '\n' {
            keep_piece(&mut out, &mut any_kept, v, line_start, i, '\n', Ghost(done));
            proof {
                done = done.push(v@.subrange(line_start as int, i as int));
                assert(v@.subrange(i + 1, i + 1) =~= Seq::<char>::empty());
            }
            line_start = i + 1;
        } else {
            proof {
                assert(v@.subrange(line_start as int, i + 1) =~= v@.subrange(
                    line_start as int,
                    i as int,
                ).push(v@[i as int]));
                assert(done.push(v@.subrange(line_start as int, i as int)).drop_last() =~= done);
            }
        }
        i = i + 1;
    }
    keep_piece(&mut out, &mut any_kept, v, line_start, n, '\n', Ghost(done));
    proof {
        assert(v@.subrange(0, n as int) =~= v@);
    }
    out
}

/// The character of a decimal digit.
pub open spec fn digit_char(d: nat) -> char {
    ((d + 48) as u32) as char
}

/// The decimal notation of `n`, without leading zeros.
pub open spec fn decimal(n: nat) -> Seq<char>
    decreases n,
{
    if n < 10 {
        seq![digit_char(n)]
    } else {
        decimal(n / 10).push(digit_char(n % 10))
    }
}

/// Appends the decimal notation of `n`.
pub fn push_decimal(out: &mut String, n: u64)
    ensures
        final(out)@ == old(out)@ + decimal(n as nat),
    decreases n,
{
    if n >= 10 {
        push_decimal(out, n / 10);
    }
    let d: u32 = (n % 10) as u32;
    let c = char_from_ascii(d + 48);
    push_char(out, c);
    proof {
        if n >= 10 {
            assert(decimal(n as nat) == decimal((n / 10) as nat).push(digit_char((n % 10) as nat)));
        } else {
            assert(decimal(n as nat) == seq![digit_char(n as nat)]);
        }
    }
}

/// The pieces of `s` between whitespace characters (empty ones included).
pub open spec fn split_ws(s: Seq<char>) -> Seq<Seq<char>>
    decreases s.len(),
{
    if s.len() == 0 {
        seq![Seq::empty()]
    } else {
        let rest = split_ws(s.drop_last());
        if is_ws(s.last()) {
            rest.push(Seq::empty())
        } else {
            rest.drop_last().push(rest.last().push(s.last()))
        }
    }
}

/// The words of `s` joined with single spaces
/// (`split_whitespace().collect::<Vec<_>>().join(" ")`).
pub open spec fn collapse_ws(s: Seq<char>) -> Seq<char> {
    join_with(kept_pieces(split_ws(s)), seq![' '])
}

/// The words of `v` joined with single spaces.
pub fn collapse_whitespace(v: &Vec<char>) -> (r: String)
    ensures
        r@ == collapse_ws(v@),
{
    let n = v.len();
    let mut out = String::new();
    let mut any_kept = false;
    let mut start: usize = 0;
    let mut i: usize = 0;
    let ghost mut done: Seq<Seq<char>> = Seq::empty();
    proof {
        assert(v@.subrange(0, 0) =~= Seq::<char>::empty());
    }
    while i < n
        invariant
            n == v@.len(),
            start <= i <= n,
            split_ws(v@.subrange(0, i as int)) == done.push(v@.subrange(start as int, i as int)),
            out@ == join_with(kept_pieces(done), seq![' ']),
            any_kept == (kept_pieces(done).len() > 0),
        decreases n - i,
    {
        proof {
            assert(v@.subrange(0, i + 1).drop_last() =~= v@.subrange(0, i as int));
            assert(v@.subrange(0, i + 1).last() == v@[i as int]);
        }
        if is_whitespace(v[i]) {
            keep_piece(&mut out, &mut any_kept, v, start, i, ' ', Ghost(done));
            proof {
                done = done.push(v@.subrange(start as int, i as int));
                assert(v@.subrange(i + 1, i + 1) =~= Seq::<char>::empty());
            }
            start = i + 1;
        } else {
            proof {
                assert(v@.subrange(start as int, i + 1) =~= v@.subrange(start as int, i as int).push(
                    v@[i as int],
                ));
                assert(done.push(v@.subrange(start as int, i as int)).drop_last() =~= done);
            }
        }
        i = i + 1;
    }
    keep_piece(&mut out, &mut any_kept, v, start, n, ' ', Ghost(done));
    proof {
        assert(v@.subrange(0, n as int) =~= v@);
    }
    out
}

} // verus!
