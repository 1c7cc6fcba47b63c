//! Paths as text: the file extension that picks a parser, and the lexical
//! clean-up of absolute paths used as document keys. Paths use `/` as the
//! separator.
use vstd::prelude::*;

use crate::text::{ascii_lower, ascii_lower_seq, chars_of, push_char, split_on, to_ascii_lower_char};

verus! {

/// End of the last component of `p[..j]` once trailing separators and `.`
/// components are set aside (`0` if nothing is left).
pub open spec fn name_end(p: Seq<char>, j: int) -> int
    decreases j,
{
    if j <= 0 {
        0
    } else if p[j - 1] == '/' {
        name_end(p, j - 1)
    } else if p[j - 1] == '.' && (j - 1 == 0 || p[j - 2] == '/') {
        name_end(p, j - 1)
    } else {
        j
    }
}

/// Start of the component that ends at `e`.
pub open spec fn component_start(p: Seq<char>, e: int) -> int
    decreases e,
{
    if e <= 0 {
        0
    } else if p[e - 1] == '/' {
        e
    } else {
        component_start(p, e - 1)
    }
}

/// The file name of a path, as `Path::file_name` gives it: the last
/// component, unless the path has none or ends in `..`.
pub open spec fn file_name(p: Seq<char>) -> Option<Seq<char>> {
    let e = name_end(p, p.len() as int);
    let s = component_start(p, e);
    let name = p.subrange(s, e);
    if e == 0 || name == seq!['.', '.'] {
        None
    } else {
        Some(name)
    }
}

/// Index of the last `.` in `s[..j]`, or `-1`.
pub open spec fn last_dot(s: Seq<char>, j: int) -> int
    decreases j,
{
    if j <= 0 {
        -1
    } else if s[j - 1] == '.' {
        j - 1
    } else {
        last_dot(s, j - 1)
    }
}

/// The extension of a file name: what follows its last `.`, unless there is
/// no `.` or the only one starts the name.
pub open spec fn name_extension(name: Seq<char>) -> Option<Seq<char>> {
    let d = last_dot(name, name.len() as int);
    if d <= 0 {
        None
    } else {
        Some(name.subrange(d + 1, name.len() as int))
    }
}

/// The extension of a path, as `Path::extension` gives it.
pub open spec fn path_extension(p: Seq<char>) -> Option<Seq<char>> {
    match file_name(p) {
        Some(name) => name_extension(name),
        None => None,
    }
}

proof fn lemma_name_end(p: Seq<char>, j: int)
    requires
        0 <= j <= p.len(),
    ensures
        0 <= name_end(p, j) <= j,
    decreases j,
{
    if j > 0 {
        lemma_name_end(p, j - 1);
    }
}

proof fn lemma_component_start(p: Seq<char>, e: int)
    requires
        0 <= e <= p.len(),
    ensures
        0 <= component_start(p, e) <= e,
    decreases e,
{
    if e > 0 {
        lemma_component_start(p, e - 1);
    }
}

proof fn lemma_last_dot(s: Seq<char>, j: int)
    requires
        0 <= j <= s.len(),
    ensures
        -1 <= last_dot(s, j) < j,
        last_dot(s, j) >= 0 ==> s[last_dot(s, j)] == '.',
    decreases j,
{
    if j > 0 {
        lemma_last_dot(s, j - 1);
    }
}

/// The bounds of the file name of `p`, if it has one.
fn file_name_range(p: &Vec<char>) -> (r: Option<(usize, usize)>)
    ensures
        match r {
            Some((s, e)) => s <= e <= p@.len() && file_name(p@) == Some(p@.subrange(s as int, e as int)),
            None => file_name(p@) is None,
        },
{
    let ghost q = p@;
    let mut e = p.len();
    proof {
        lemma_name_end(q, e as int);
    }
    while e > 0 && (p[e - 1] == '/' || (p[e - 1] == '.' && (e - 1 == 0 || p[e - 2] == '/')))
        invariant
            q == p@,
            e <= p@.len(),
            name_end(q, e as int) == name_end(q, q.len() as int),
        decreases e,
    {
        e = e - 1;
    }
    if e == 0 {
        return None;
    }
    let mut s = e;
    while s > 0 && p[s - 1] != '/'
        invariant
            q == p@,
            0 < e <= p@.len(),
            s <= e,
            name_end(q, q.len() as int) == e,
            component_start(q, s as int) == component_start(q, e as int),
        decreases s,
    {
        s = s - 1;
    }
    proof {
        lemma_component_start(q, e as int);
        assert(component_start(q, s as int) == s as int);
        assert(component_start(q, e as int) == s as int);
    }
    if e - s == 2 && p[s] == '.' && p[s + 1] == '.' {
        proof {
            assert(q.subrange(s as int, e as int) =~= seq!['.', '.']);
        }
        return None;
    }
    proof {
        if q.subrange(s as int, e as int) == seq!['.', '.'] {
            assert(q.subrange(s as int, e as int)[0] == q[s as int]);
            assert(q.subrange(s as int, e as int)[1] == q[s + 1]);
        }
    }
    Some((s, e))
}

/// The extension of `path`, lower-cased the ASCII way, or `None` when the
/// path has no extension.
pub fn lower_extension(path: &str) -> (r: Option<Vec<char>>)
    ensures
        match path_extension(path@) {
            Some(ext) => r matches Some(v) && v@ == ascii_lower_seq(ext),
            None => r is None,
        },
{
    let p = chars_of(path);
    match file_name_range(&p) {
        None => None,
        Some((s, e)) => {
            let ghost name = p@.subrange(s as int, e as int);
            let mut j = e;
            proof {
                lemma_last_dot(name, name.len() as int);
            }
            while j > s && p[j - 1] != '.'
                invariant
                    s <= j <= e <= p@.len(),
                    name == p@.subrange(s as int, e as int),
                    last_dot(name, (j - s) as int) == last_dot(name, name.len() as int),
                decreases j,
            {
                j = j - 1;
            }
            // the dot sits at `j - 1`; none, or one that starts the name, means no extension
            if j - s <= 1 {
                proof {
                    if j == s + 1 {
                        assert(name[0] == '.');
                    }
                }
                return None;
            }
            let mut out: Vec<char> = Vec::new();
            let mut k = j;
            while k < e
                invariant
                    s + 1 < j <= k <= e <= p@.len(),
                    name == p@.subrange(s as int, e as int),
                    out@ == ascii_lower_seq(p@.subrange(j as int, k as int)),
                decreases e - k,
            {
                let c = to_ascii_lower_char(p[k]);
                out.push(c);
                proof {
                    assert(p@.subrange(j as int, k + 1) == p@.subrange(j as int, k as int).push(
                        p@[k as int],
                    ));
                    assert(ascii_lower_seq(p@.subrange(j as int, k + 1)) =~= ascii_lower_seq(
                        p@.subrange(j as int, k as int),
                    ).push(ascii_lower(p@[k as int])));
                }
                k = k + 1;
            }
            proof {
                assert(name.subrange((j - s) as int, name.len() as int) =~= p@.subrange(
                    j as int,
                    e as int,
                ));
            }
            Some(out)
        },
    }
}

/// The extension of `path` as it is written, or `None` when the path has
/// no extension.
pub fn extension_of(path: &str) -> (r: Option<Vec<char>>)
    ensures
        match path_extension(path@) {
            Some(ext) => r matches Some(v) && v@ == ext,
            None => r is None,
        },
{
    let p = chars_of(path);
    match file_name_range(&p) {
        None => None,
        Some((s, e)) => {
            let ghost name = p@.subrange(s as int, e as int);
            let mut j = e;
            proof {
                lemma_last_dot(name, name.len() as int);
            }
            while j > s && p[j - 1] != '.'
                invariant
                    s <= j <= e <= p@.len(),
                    name == p@.subrange(s as int, e as int),
                    last_dot(name, (j - s) as int) == last_dot(name, name.len() as int),
                decreases j,
            {
                j = j - 1;
            }
            if j - s <= 1 {
                proof {
                    if j == s + 1 {
                        assert(name[0] == '.');
                    }
                }
                return None;
            }
            let mut out: Vec<char> = Vec::new();
            let mut k = j;
            while k < e
                invariant
                    s + 1 < j <= k <= e <= p@.len(),
                    name == p@.subrange(s as int, e as int),
                    out@ == p@.subrange(j as int, k as int),
                decreases e - k,
            {
                out.push(p[k]);
                proof {
                    assert(p@.subrange(j as int, k + 1) =~= p@.subrange(j as int, k as int).push(
                        p@[k as int],
                    ));
                }
                k = k + 1;
            }
            proof {
                assert(name.subrange((j - s) as int, name.len() as int) =~= p@.subrange(
                    j as int,
                    e as int,
                ));
            }
            Some(out)
        },
    }
}

/// Components of an absolute path after lexical clean-up: empty and `.`
/// components dropped, each `..` removing the component before it (at the
/// root it removes nothing).
pub open spec fn clean_components(comps: Seq<Seq<char>>) -> Seq<Seq<char>>
    decreases comps.len(),
{
    if comps.len() == 0 {
        Seq::empty()
    } else {
        let done = clean_components(comps.drop_last());
        let c = comps.last();
        if c.len() == 0 || c == seq!['.'] {
            done
        } else if c == seq!['.', '.'] {
            if done.len() == 0 {
                done
            } else {
                done.drop_last()
            }
        } else {
            done.push(c)
        }
    }
}

/// `/` followed by the components joined with `/`.
pub open spec fn join_absolute(comps: Seq<Seq<char>>) -> Seq<char>
    decreases comps.len(),
{
    if comps.len() == 0 {
        seq!['/']
    } else if comps.len() == 1 {
        seq!['/'] + comps[0]
    } else {
        join_absolute(comps.drop_last()) + seq!['/'] + comps.last()
    }
}

/// The lexically normalized form of an absolute path.
pub open spec fn normalized_absolute(p: Seq<char>) -> Seq<char> {
    join_absolute(clean_components(split_on(p, '/')))
}

/// Lexical clean-up leaves no empty, `.` or `..` component behind.
pub proof fn lemma_clean_components(comps: Seq<Seq<char>>)
    ensures
        forall|k: int|
            0 <= k < clean_components(comps).len() ==> {
                let c = #[trigger] clean_components(comps)[k];
                c.len() > 0 && c != seq!['.'] && c != seq!['.', '.']
            },
    decreases comps.len(),
{
    if comps.len() > 0 {
        lemma_clean_components(comps.drop_last());
        let done = clean_components(comps.drop_last());
        let all = clean_components(comps);
        assert forall|k: int| 0 <= k < all.len() implies {
            let c = #[trigger] all[k];
            c.len() > 0 && c != seq!['.'] && c != seq!['.', '.']
        } by {
            if k < done.len() {
                assert(all[k] == done[k]);
            } else {
                assert(all[k] == comps.last());
            }
        }
    }
}

/// A normalized path is absolute and clean: it starts at the root and none
/// of its components is empty, `.` or `..`.
pub proof fn lemma_normalized_is_clean(p: Seq<char>)
    ensures
        normalized_absolute(p).len() > 0,
        normalized_absolute(p)[0] == '/',
        normalized_absolute(p) == join_absolute(clean_components(split_on(p, '/'))),
        forall|k: int|
            0 <= k < clean_components(split_on(p, '/')).len() ==> {
                let c = #[trigger] clean_components(split_on(p, '/'))[k];
                c.len() > 0 && c != seq!['.'] && c != seq!['.', '.']
            },
{
    lemma_clean_components(split_on(p, '/'));
    lemma_join_absolute_starts_at_root(clean_components(split_on(p, '/')));
}

proof fn lemma_join_absolute_starts_at_root(comps: Seq<Seq<char>>)
    ensures
        join_absolute(comps).len() > 0,
        join_absolute(comps)[0] == '/',
    decreases comps.len(),
{
    if comps.len() > 1 {
        lemma_join_absolute_starts_at_root(comps.drop_last());
    }
}

/// No piece of a split holds the separator.
proof fn lemma_split_pieces(s: Seq<char>, sep: char)
    ensures
        forall|k: int|
            0 <= k < split_on(s, sep).len() ==> !(#[trigger] split_on(s, sep)[k]).contains(sep),
        split_on(s, sep).len() > 0,
    decreases s.len(),
{
    if s.len() > 0 {
        lemma_split_pieces(s.drop_last(), sep);
        let rest = split_on(s.drop_last(), sep);
        let all = split_on(s, sep);
        assert forall|k: int| 0 <= k < all.len() implies !(#[trigger] all[k]).contains(sep) by {
            if s.last() == sep {
                if k < rest.len() {
                    assert(all[k] == rest[k]);
                } else {
                    assert(all[k] =~= Seq::<char>::empty());
                }
            } else if k < rest.len() - 1 {
                assert(all[k] == rest[k]);
            } else {
                let piece = rest.last().push(s.last());
                assert(all[k] == piece);
                assert(!rest[rest.len() - 1].contains(sep));
                if piece.contains(sep) {
                    let j = choose|j: int| 0 <= j < piece.len() && piece[j] == sep;
                    if j < rest.last().len() {
                        assert(rest.last()[j] == sep);
                    }
                }
            }
        }
    }
}

/// Clean-up keeps only pieces it was given, so none holds a `/` when none
/// of them did.
proof fn lemma_clean_keeps_pieces(comps: Seq<Seq<char>>)
    requires
        forall|j: int| 0 <= j < comps.len() ==> !(#[trigger] comps[j]).contains('/'),
    ensures
        forall|k: int|
            0 <= k < clean_components(comps).len() ==> !(#[trigger] clean_components(comps)[k]).contains('/'),
    decreases comps.len(),
{
    if comps.len() > 0 {
        let rest = comps.drop_last();
        assert forall|j: int| 0 <= j < rest.len() implies !(#[trigger] rest[j]).contains('/') by {
            assert(rest[j] == comps[j]);
        }
        lemma_clean_keeps_pieces(rest);
        let done = clean_components(rest);
        let all = clean_components(comps);
        assert forall|k: int| 0 <= k < all.len() implies !(#[trigger] all[k]).contains('/') by {
            if k < done.len() {
                assert(all[k] == done[k]);
            } else {
                assert(all[k] == comps[comps.len() - 1]);
            }
        }
    }
}

/// Splitting `a`, a separator and a piece without separators gives the
/// pieces of `a` and then that piece.
proof fn lemma_split_append(a: Seq<char>, b: Seq<char>, sep: char)
    requires
        !b.contains(sep),
    ensures
        split_on(a + seq![sep] + b, sep) == split_on(a, sep).push(b),
    decreases b.len(),
{
    let s = a + seq![sep] + b;
    if b.len() == 0 {
        assert(s.drop_last() =~= a);
        assert(b =~= Seq::<char>::empty());
    } else {
        let b0 = b.drop_last();
        assert(!b0.contains(sep)) by {
            if b0.contains(sep) {
                let j = choose|j: int| 0 <= j < b0.len() && b0[j] == sep;
                assert(b[j] == sep);
            }
        }
        lemma_split_append(a, b0, sep);
        assert(s.drop_last() =~= a + seq![sep] + b0);
        assert(s.last() == b.last());
        assert(b.last() != sep) by {
            assert(b[b.len() - 1] == b.last());
        }
        assert(b0.push(b.last()) =~= b);
        assert(split_on(a, sep).push(b0).drop_last() =~= split_on(a, sep));
    }
}

/// The pieces of a joined absolute path are an empty piece (before the
/// root `/`) and then the components.
proof fn lemma_split_join(cs: Seq<Seq<char>>)
    requires
        cs.len() > 0,
        forall|k: int| 0 <= k < cs.len() ==> !(#[trigger] cs[k]).contains('/'),
    ensures
        split_on(join_absolute(cs), '/') == seq![Seq::<char>::empty()] + cs,
    decreases cs.len(),
{
    if cs.len() == 1 {
        lemma_split_append(Seq::empty(), cs[0], '/');
        assert(Seq::<char>::empty() + seq!['/'] + cs[0] =~= seq!['/'] + cs[0]);
        assert(split_on(Seq::<char>::empty(), '/') == seq![Seq::<char>::empty()]);
        assert(seq![Seq::<char>::empty()].push(cs[0]) =~= seq![Seq::<char>::empty()] + cs);
    } else {
        let rest = cs.drop_last();
        assert forall|k: int| 0 <= k < rest.len() implies !(#[trigger] rest[k]).contains('/') by {
            assert(rest[k] == cs[k]);
        }
        lemma_split_join(rest);
        assert(!cs[cs.len() - 1].contains('/'));
        lemma_split_append(join_absolute(rest), cs.last(), '/');
        assert((seq![Seq::<char>::empty()] + rest).push(cs.last()) =~= seq![Seq::<char>::empty()]
            + cs);
    }
}

/// Cleaning an empty piece followed by clean components gives the
/// components back.
proof fn lemma_clean_of_clean(cs: Seq<Seq<char>>)
    requires
        forall|k: int|
            0 <= k < cs.len() ==> {
                let c = #[trigger] cs[k];
                c.len() > 0 && c != seq!['.'] && c != seq!['.', '.']
            },
    ensures
        clean_components(seq![Seq::<char>::empty()] + cs) == cs,
    decreases cs.len(),
{
    let all = seq![Seq::<char>::empty()] + cs;
    if cs.len() == 0 {
        assert(all.drop_last() =~= Seq::<Seq<char>>::empty());
        assert(clean_components(all.drop_last()) == Seq::<Seq<char>>::empty());
        assert(all.last() == Seq::<char>::empty());
        assert(cs =~= Seq::<Seq<char>>::empty());
    } else {
        let rest = cs.drop_last();
        assert forall|k: int| 0 <= k < rest.len() implies {
            let c = #[trigger] rest[k];
            c.len() > 0 && c != seq!['.'] && c != seq!['.', '.']
        } by {
            assert(rest[k] == cs[k]);
        }
        lemma_clean_of_clean(rest);
        assert(all.drop_last() =~= seq![Seq::<char>::empty()] + rest);
        assert(clean_components(all.drop_last()) == rest);
        assert(all.last() == cs[cs.len() - 1]);
        let c = cs[cs.len() - 1];
        assert(c.len() > 0 && c != seq!['.'] && c != seq!['.', '.']);
        assert(rest.push(cs.last()) =~= cs);
    }
}

/// Normalizing is idempotent: a normalized path normalizes to itself, so a
/// document key normalized once keeps its spelling when normalized again.
pub proof fn lemma_normalize_idempotent(p: Seq<char>)
    ensures
        normalized_absolute(normalized_absolute(p)) == normalized_absolute(p),
{
    let cs = clean_components(split_on(p, '/'));
    lemma_clean_components(split_on(p, '/'));
    lemma_split_pieces(p, '/');
    lemma_clean_keeps_pieces(split_on(p, '/'));
    if cs.len() == 0 {
        let root = seq!['/'];
        assert(normalized_absolute(p) == root);
        assert(root.drop_last() =~= Seq::<char>::empty());
        assert(split_on(Seq::<char>::empty(), '/') == seq![Seq::<char>::empty()]);
        assert(root.last() == '/');
        assert(split_on(root, '/') == seq![Seq::<char>::empty()].push(Seq::<char>::empty()));
        assert(seq![Seq::<char>::empty()].push(Seq::<char>::empty()) =~= seq![
            Seq::<char>::empty(),
            Seq::<char>::empty(),
        ]);
        let one = seq![Seq::<char>::empty()];
        let two = seq![Seq::<char>::empty(), Seq::<char>::empty()];
        assert(one.drop_last() =~= Seq::<Seq<char>>::empty());
        assert(clean_components(Seq::<Seq<char>>::empty()) == Seq::<Seq<char>>::empty());
        assert(one.last().len() == 0);
        assert(clean_components(one) == Seq::<Seq<char>>::empty());
        assert(two.drop_last() =~= one);
        assert(clean_components(two) == Seq::<Seq<char>>::empty());
        assert(join_absolute(Seq::<Seq<char>>::empty()) == root);
        let two = seq![Seq::<char>::empty(), Seq::<char>::empty()];
        assert(two.drop_last() =~= seq![Seq::<char>::empty()]);
        assert(seq![Seq::<char>::empty()].drop_last() =~= Seq::<Seq<char>>::empty());
    } else {
        lemma_split_join(cs);
        lemma_clean_of_clean(cs);
        assert(normalized_absolute(p) == join_absolute(cs));
        assert(split_on(join_absolute(cs), '/') == seq![Seq::<char>::empty()] + cs);
        assert(clean_components(split_on(join_absolute(cs), '/')) == cs);
    }
}

/// The `/`-separated pieces of `p`.
fn split_components(p: &Vec<char>) -> (r: Vec<Vec<char>>)
    ensures
        r@.map_values(|c: Vec<char>| c@) == split_on(p@, '/'),
{
    let n = p.len();
    let mut acc: Vec<Vec<char>> = Vec::new();
    let mut cur: Vec<char> = Vec::new();
    let mut i: usize = 0;
    proof {
        assert(p@.subrange(0, 0) =~= Seq::<char>::empty());
        assert(acc@.map_values(|c: Vec<char>| c@).push(cur@) =~= seq![Seq::<char>::empty()]);
    }
    while i < n
        invariant
            n == p@.len(),
            i <= n,
            split_on(p@.subrange(0, i as int), '/') == acc@.map_values(|c: Vec<char>| c@).push(
                cur@,
            ),
        decreases n - i,
    {
        let c = p[i];
        let ghost before = acc@.map_values(|c: Vec<char>| c@);
        proof {
            assert(p@.subrange(0, i + 1).drop_last() =~= p@.subrange(0, i as int));
            assert(p@.subrange(0, i + 1).last() == c);
        }
        if c == '/' {
            let piece = cur;
            acc.push(piece);
            cur = Vec::new();
            proof {
                assert(acc@.map_values(|c: Vec<char>| c@) =~= before.push(piece@));
            }
        } else {
            let ghost old_cur = cur@;
            cur.push(c);
            proof {
                assert(before.push(old_cur).drop_last() =~= before);
            }
        }
        i = i + 1;
    }
    acc.push(cur);
    proof {
        assert(p@.subrange(0, n as int) =~= p@);
    }
    acc
}

/// `c` is the component `.`.
fn is_dot(c: &Vec<char>) -> (r: bool)
    ensures
        r == (c@ == seq!['.']),
{
    if c.len() == 1 && c[0] == '.' {
        assert(c@ =~= seq!['.']);
        true
    } else {
        proof {
            if c@ == seq!['.'] {
                assert(c@[0] == '.');
            }
        }
        false
    }
}

/// `c` is the component `..`.
fn is_dot_dot(c: &Vec<char>) -> (r: bool)
    ensures
        r == (c@ == seq!['.', '.']),
{
    if c.len() == 2 && c[0] == '.' && c[1] == '.' {
        assert(c@ =~= seq!['.', '.']);
        true
    } else {
        proof {
            if c@ == seq!['.', '.'] {
                assert(c@[0] == '.' && c@[1] == '.');
            }
        }
        false
    }
}

/// Cleans up an absolute path lexically: drops `.` components and empty
/// ones, and lets each `..` remove the component before it, as the document
/// key is formed for files that cannot be resolved on disk.
pub fn normalize_absolute(path: &str) -> (r: String)
    ensures
        r@ == normalized_absolute(path@),
        normalized_absolute(r@) == r@,
{
    proof {
        lemma_normalize_idempotent(path@);
    }
    let p = chars_of(path);
    let pieces = split_components(&p);
    let ghost pv = pieces@.map_values(|c: Vec<char>| c@);
    let mut done: Vec<Vec<char>> = Vec::new();
    let mut k: usize = 0;
    proof {
        assert(pv.subrange(0, 0) =~= Seq::<Seq<char>>::empty());
        assert(done@.map_values(|c: Vec<char>| c@) =~= Seq::<Seq<char>>::empty());
    }
    while k < pieces.len()
        invariant
            pv == pieces@.map_values(|c: Vec<char>| c@),
            k <= pieces@.len(),
            done@.map_values(|c: Vec<char>| c@) == clean_components(pv.subrange(0, k as int)),
        decreases pieces.len() - k,
    {
        let ghost before = done@.map_values(|c: Vec<char>| c@);
        proof {
            assert(pv.subrange(0, k + 1).drop_last() =~= pv.subrange(0, k as int));
            assert(pv.subrange(0, k + 1).last() == pieces@[k as int]@);
        }
        let c = &pieces[k];
        if c.len() == 0 || is_dot(c) {
        } else if is_dot_dot(c) {
            if done.len() > 0 {
                done.pop();
                proof {
                    assert(done@.map_values(|c: Vec<char>| c@) =~= before.drop_last());
                }
            }
        } else {
            done.push(c.clone());
            proof {
                assert(done@.map_values(|c: Vec<char>| c@) =~= before.push(pieces@[k as int]@));
            }
        }
        k = k + 1;
    }
    proof {
        assert(pv.subrange(0, pieces@.len() as int) =~= pv);
    }
    join_components(&done)
}

/// `/` followed by the components joined with `/`.
fn join_components(comps: &Vec<Vec<char>>) -> (r: String)
    ensures
        r@ == join_absolute(comps@.map_values(|c: Vec<char>| c@)),
{
    let ghost cv = comps@.map_values(|c: Vec<char>| c@);
    let mut r = String::new();
    push_char(&mut r, '/');
    let mut k: usize = 0;
    while k < comps.len()
        invariant
            cv == comps@.map_values(|c: Vec<char>| c@),
            k <= comps@.len(),
            r@ == join_absolute(cv.subrange(0, k as int)),
        decreases comps.len() - k,
    {
        let ghost before = r@;
        if k > 0 {
            push_char(&mut r, '/');
        }
        let ghost mid = r@;
        let c = &comps[k];
        let mut j: usize = 0;
        while j < c.len()
            invariant
                k < comps@.len(),
                c == comps@[k as int],
                j <= c@.len(),
                r@ == mid + c@.subrange(0, j as int),
            decreases c.len() - j,
        {
            push_char(&mut r, c[j]);
            proof {
                assert(c@.subrange(0, j + 1) =~= c@.subrange(0, j as int).push(c@[j as int]));
            }
            j = j + 1;
        }
        proof {
            assert(c@.subrange(0, c@.len() as int) =~= c@);
            let next = cv.subrange(0, k + 1);
            assert(next.drop_last() =~= cv.subrange(0, k as int));
            assert(next.last() == c@);
            if k == 0 {
                assert(next =~= seq![c@]);
            }
        }
        k = k + 1;
    }
    proof {
        assert(cv.subrange(0, comps@.len() as int) =~= cv);
    }
    r
}

} // verus!
