//! Unix path text: the final component (`Path::file_name`), its stem and
//! extension (`Path::file_stem`, `Path::extension`) and joining
//! (`Path::join`), all on character sequences.

use vstd::prelude::*;
use crate::text::{chars_eq, chars_of, extend_chars, slice_of, string_of};

verus! {

/// Index of the last `c` in `s`, or `-1` when `c` does not occur.
pub open spec fn last_index_of(s: Seq<char>, c: char) -> int
    decreases s.len(),
{
    if s.len() == 0 {
        -1
    } else if s.last() == c {
        s.len() - 1
    } else {
        last_index_of(s.drop_last(), c)
    }
}

/// `last_index_of` points at the last occurrence, or there is none.
pub proof fn lemma_last_index_of(s: Seq<char>, c: char)
    ensures
        -1 <= last_index_of(s, c) < s.len(),
        last_index_of(s, c) >= 0 ==> s[last_index_of(s, c)] == c,
        forall|j: int| last_index_of(s, c) < j < s.len() ==> s[j] != c,
    decreases s.len(),
{
    if s.len() > 0 && s.last() != c {
        lemma_last_index_of(s.drop_last(), c);
        assert forall|j: int| last_index_of(s, c) < j < s.len() implies s[j] != c by {
            if j < s.len() - 1 {
                assert(s[j] == s.drop_last()[j]);
            }
        }
    }
}

/// The final component of a Unix path, as `Path::file_name` yields it:
/// trailing separators and `.` components are skipped, a final `..`
/// or an empty remainder has no file name.
pub open spec fn file_name_of(p: Seq<char>) -> Option<Seq<char>>
    decreases p.len(),
{
    if p.len() == 0 {
        None
    } else if p.last() == '/' {
        file_name_of(p.drop_last())
    } else {
        let k = last_index_of(p, '/');
        proof {
            lemma_last_index_of(p, '/');
        }
        let seg = p.subrange(k + 1, p.len() as int);
        if seg == seq!['.'] {
            file_name_of(p.subrange(0, k + 1))
        } else if seg == seq!['.', '.'] {
            None
        } else {
            Some(seg)
        }
    }
}

/// Stem of a file name (`Path::file_stem`): the part before the last `.`,
/// or the whole name when it has no `.` past its first character.
pub open spec fn stem_of(f: Seq<char>) -> Seq<char> {
    let i = last_index_of(f, '.');
    if i <= 0 {
        f
    } else {
        f.take(i)
    }
}

/// Extension of a file name (`Path::extension`): the part after the last
/// `.`, none when the name has no `.` past its first character.
pub open spec fn extension_of(f: Seq<char>) -> Option<Seq<char>> {
    let i = last_index_of(f, '.');
    if i <= 0 {
        None
    } else {
        Some(f.skip(i + 1))
    }
}

/// A file name with an extension is its stem, a dot and the extension.
pub proof fn lemma_stem_dot_extension(f: Seq<char>)
    requires
        extension_of(f) is Some,
    ensures
        stem_of(f) + seq!['.'] + extension_of(f)->0 == f,
{
    lemma_last_index_of(f, '.');
    let i = last_index_of(f, '.');
    assert(f.take(i) + seq!['.'] + f.skip(i + 1) =~= f);
}

/// `Path::file_stem` of a whole path.
pub open spec fn path_stem(p: Seq<char>) -> Option<Seq<char>> {
    match file_name_of(p) {
        Some(f) => Some(stem_of(f)),
        None => None,
    }
}

/// `Path::extension` of a whole path.
pub open spec fn path_extension(p: Seq<char>) -> Option<Seq<char>> {
    match file_name_of(p) {
        Some(f) => extension_of(f),
        None => None,
    }
}

/// `base.join(rel)` on Unix: an absolute `rel` replaces `base`, otherwise
/// `rel` is appended after a separator unless `base` is empty or already
/// ends with one.
pub open spec fn join(base: Seq<char>, rel: Seq<char>) -> Seq<char> {
    if rel.len() > 0 && rel[0] == '/' {
        rel
    } else if base.len() == 0 || base.last() == '/' {
        base + rel
    } else {
        base + seq!['/'] + rel
    }
}

/// Character view of an optional character vector.
pub open spec fn opt_view(o: Option<Vec<char>>) -> Option<Seq<char>> {
    match o {
        Some(v) => Some(v@),
        None => None,
    }
}

/// Index of the last `c` among `v[..end]`.
pub fn rfind_char(v: &Vec<char>, end: usize, c: char) -> (r: Option<usize>)
    requires
        end <= v@.len(),
    ensures
        match r {
            Some(i) => i as int == last_index_of(v@.take(end as int), c),
            None => last_index_of(v@.take(end as int), c) == -1,
        },
{
    let mut i = end;
    while i > 0
        invariant
            i <= end <= v@.len(),
            last_index_of(v@.take(end as int), c) == last_index_of(v@.take(i as int), c),
        decreases i,
    {
        if v[i - 1] == c {
            return Some(i - 1);
        }
        assert(v@.take(i as int).drop_last() =~= v@.take(i - 1));
        i -= 1;
    }
    None
}

/// The final component of the path `p` (`Path::file_name`).
pub fn file_name_chars(p: &Vec<char>) -> (r: Option<Vec<char>>)
    ensures
        opt_view(r) == file_name_of(p@),
{
    let mut end = p.len();
    assert(p@.take(end as int) =~= p@);
    loop
        invariant
            end <= p@.len(),
            file_name_of(p@) == file_name_of(p@.take(end as int)),
        decreases end,
    {
        if end == 0 {
            return None;
        }
        let ghost q = p@.take(end as int);
        if p[end - 1] == '/' {
            assert(q.drop_last() =~= p@.take(end - 1));
            end -= 1;
        } else {
            let slash = rfind_char(p, end, '/');
            proof {
                lemma_last_index_of(q, '/');
            }
            let start: usize = match slash {
                Some(k) => k + 1,
                None => 0,
            };
            assert(q.subrange(start as int, q.len() as int) =~= p@.subrange(start as int, end as int));
            let seg = slice_of(p, start, end);
            if seg.len() == 1 && seg[0] == '.' {
                assert(seg@ =~= seq!['.']);
                assert(q.subrange(0, start as int) =~= p@.take(start as int));
                end = start;
            } else if seg.len() == 2 && seg[0] == '.' && seg[1] == '.' {
                assert(seg@ =~= seq!['.', '.']);
                return None;
            } else {
                assert(seg@ != seq!['.']);
                assert(seg@ != seq!['.', '.']);
                return Some(seg);
            }
        }
    }
}

/// Stem of the file name `f` (see `stem_of`).
pub fn stem_chars(f: &Vec<char>) -> (r: Vec<char>)
    ensures
        r@ == stem_of(f@),
{
    assert(f@.take(f@.len() as int) =~= f@);
    proof {
        lemma_last_index_of(f@, '.');
    }
    match rfind_char(f, f.len(), '.') {
        Some(i) if i > 0 => slice_of(f, 0, i),
        _ => slice_of(f, 0, f.len()),
    }
}

/// Extension of the file name `f` (see `extension_of`).
pub fn extension_chars(f: &Vec<char>) -> (r: Option<Vec<char>>)
    ensures
        opt_view(r) == extension_of(f@),
{
    assert(f@.take(f@.len() as int) =~= f@);
    match rfind_char(f, f.len(), '.') {
        Some(i) if i > 0 => {
            proof {
                lemma_last_index_of(f@, '.');
            }
            Some(slice_of(f, i + 1, f.len()))
        },
        _ => None,
    }
}

/// `base.join(rel)` (see `join`).
pub fn join_chars(base: &Vec<char>, rel: &Vec<char>) -> (r: Vec<char>)
    ensures
        r@ == join(base@, rel@),
{
    if rel.len() > 0 && rel[0] == '/' {
        return slice_of(rel, 0, rel.len());
    }
    let mut out = slice_of(base, 0, base.len());
    if base.len() > 0 && base[base.len() - 1] != '/' {
        out.push('/');
    }
    extend_chars(&mut out, rel);
    out
}


/// The `/`-separated pieces of `p`, empty pieces included.
pub open spec fn segments_of(p: Seq<char>) -> Seq<Seq<char>>
    decreases p.len(),
{
    let k = last_index_of(p, '/');
    proof {
        lemma_last_index_of(p, '/');
    }
    if k < 0 {
        seq![p]
    } else {
        segments_of(p.take(k)).push(p.skip(k + 1))
    }
}

/// A piece that names a component: neither empty nor `.`.
pub open spec fn is_component(s: Seq<char>) -> bool {
    s.len() > 0 && s != seq!['.']
}

/// `is_component` as a predicate value.
pub open spec fn component_pred() -> spec_fn(Seq<char>) -> bool {
    |s: Seq<char>| is_component(s)
}

/// What `Path::components` yields on Unix, as documented: a root flag,
/// a leading `.` flag, and the pieces between separators with repeated
/// separators, `.` pieces and a trailing separator normalized away.
pub open spec fn path_components(p: Seq<char>) -> (bool, bool, Seq<Seq<char>>) {
    let root = p.len() > 0 && p[0] == '/';
    let cur = !root && p.len() > 0 && p[0] == '.' && (p.len() == 1 || p[1] == '/');
    (root, cur, segments_of(p).filter(component_pred()))
}

/// Two paths are equal as `Path`s: they have the same components.
pub open spec fn same_path(a: Seq<char>, b: Seq<char>) -> bool {
    path_components(a) == path_components(b)
}

/// Character views of a list of character vectors.
pub open spec fn views_of(v: Seq<Vec<char>>) -> Seq<Seq<char>> {
    v.map_values(|x: Vec<char>| x@)
}

/// The component pieces of `p` (see `path_components`).
fn component_pieces(p: &Vec<char>) -> (r: Vec<Vec<char>>)
    ensures
        views_of(r@) == segments_of(p@).filter(component_pred()),
{
    // All pieces, then the components among them.
    let mut done: Vec<Vec<char>> = Vec::new();
    let mut cur: Vec<char> = Vec::new();
    let mut i: usize = 0;
    proof {
        lemma_last_index_of(p@.take(0), '/');
    }
    while i < p.len()
        invariant
            i <= p@.len(),
            ({
                let q = p@.take(i as int);
                let k = last_index_of(q, '/');
                &&& -1 <= k < q.len()
                &&& cur@ == q.skip(k + 1)
                &&& views_of(done@) == (if k < 0 {
                    Seq::<Seq<char>>::empty()
                } else {
                    segments_of(q.take(k))
                })
            }),
        decreases p@.len() - i,
    {
        let ghost q = p@.take(i as int);
        let ghost q1 = p@.take(i + 1);
        assert(q1 =~= q.push(p@[i as int]));
        assert(q1.drop_last() =~= q);
        proof {
            lemma_last_index_of(q, '/');
            lemma_last_index_of(q1, '/');
        }
        if p[i] == '/' {
            let ghost k = last_index_of(q, '/');
            assert(last_index_of(q1, '/') == i);
            assert(q1.take(i as int) =~= q);
            proof {
                if k >= 0 {
                    assert(segments_of(q) == segments_of(q.take(k)).push(q.skip(k + 1)));
                } else {
                    assert(segments_of(q) == seq![q]);
                }
            }
            let piece = cur;
            let ghost old_done = done@;
            done.push(piece);
            assert(views_of(done@) =~= views_of(old_done).push(q.skip(k + 1)));
            assert(q.skip(0) =~= q);
            cur = Vec::new();
            assert(views_of(done@) =~= segments_of(q));
            assert(cur@ =~= q1.skip(i + 1));
        } else {
            assert(last_index_of(q1, '/') == last_index_of(q, '/'));
            cur.push(p[i]);
            let ghost k = last_index_of(q, '/');
            assert(cur@ =~= q1.skip(k + 1));
            proof {
                if k >= 0 {
                    assert(q1.take(k) =~= q.take(k));
                }
            }
        }
        i += 1;
    }
    let ghost q = p@.take(i as int);
    assert(q =~= p@);
    proof {
        lemma_last_index_of(q, '/');
    }
    let ghost old_done = done@;
    done.push(cur);
    let ghost all = views_of(done@);
    assert(all =~= views_of(old_done).push(cur@));
    assert(q.skip(0) =~= q);
    assert(all =~= segments_of(p@));
    // Keep the components.
    let mut out: Vec<Vec<char>> = Vec::new();
    let mut j: usize = 0;
    while j < done.len()
        invariant
            j <= done@.len(),
            all == views_of(done@),
            views_of(out@) == all.take(j as int).filter(component_pred()),
        decreases done@.len() - j,
    {
        proof {
            assert(all.take(j + 1) =~= all.take(j as int).push(all[j as int]));
            all.take(j as int).lemma_filter_push(all[j as int], component_pred());
        }
        let piece = &done[j];
        let keep = piece.len() > 0 && !(piece.len() == 1 && piece[0] == '.');
        assert(keep == is_component(all[j as int])) by {
            if piece@.len() == 1 && piece@[0] == '.' {
                assert(piece@ =~= seq!['.']);
            }
        }
        if keep {
            let ghost old_out = out@;
            let copy = slice_of(piece, 0, piece.len());
            assert(copy@ =~= piece@);
            assert(all[j as int] == piece@);
            out.push(copy);
            assert(views_of(out@) =~= views_of(old_out).push(all[j as int]));
            assert(views_of(out@) =~= all.take(j as int).filter(component_pred()).push(all[j as int]));
        }
        j += 1;
    }
    assert(all.take(all.len() as int) =~= all);
    out
}

/// Whether `a` and `b` are equal as paths (see `same_path`).
pub fn path_eq(a: &Vec<char>, b: &Vec<char>) -> (r: bool)
    ensures
        r == same_path(a@, b@),
{
    let root_a = a.len() > 0 && a[0] == '/';
    let root_b = b.len() > 0 && b[0] == '/';
    let cur_a = !root_a && a.len() > 0 && a[0] == '.' && (a.len() == 1 || a[1] == '/');
    let cur_b = !root_b && b.len() > 0 && b[0] == '.' && (b.len() == 1 || b[1] == '/');
    if root_a != root_b || cur_a != cur_b {
        return false;
    }
    let pa = component_pieces(a);
    let pb = component_pieces(b);
    if pa.len() != pb.len() {
        assert(views_of(pa@).len() != views_of(pb@).len());
        return false;
    }
    let mut i: usize = 0;
    while i < pa.len()
        invariant
            pa@.len() == pb@.len(),
            i <= pa@.len(),
            views_of(pa@) == segments_of(a@).filter(component_pred()),
            views_of(pb@) == segments_of(b@).filter(component_pred()),
            forall|t: int| 0 <= t < i ==> pa@[t]@ == pb@[t]@,
        decreases pa@.len() - i,
    {
        if !chars_eq(&pa[i], &pb[i]) {
            assert(views_of(pa@)[i as int] != views_of(pb@)[i as int]);
            return false;
        }
        i += 1;
    }
    assert(views_of(pa@) =~= views_of(pb@));
    true
}


/// `base.join(rel)` on strings (see `join`).
pub fn join_path(base: &str, rel: &str) -> (r: String)
    ensures
        r@ == join(base@, rel@),
{
    string_of(&join_chars(&chars_of(base), &chars_of(rel)))
}

} // verus!
