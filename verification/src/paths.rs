//! Paths as `/`-separated strings: the file name after the last separator, the directory
//! before it, and the stem and extension of a file name (split at its last dot, as
//! `Path::file_stem` and `Path::extension` do), and a path's components.

use crate::dupes::{lemma_lex_irrefl, lemma_lex_trans, lex_less, lex_lt};
use crate::text::{self, pieces, Class};
use vstd::prelude::*;

verus! {

/// The position of the last `c` in `s`.
pub open spec fn last_index(s: Seq<char>, c: char) -> Option<int>
    decreases s.len(),
{
    if s.len() == 0 {
        None
    } else if s.last() == c {
        Some(s.len() - 1)
    } else {
        last_index(s.drop_last(), c)
    }
}

pub proof fn lemma_last_index(s: Seq<char>, c: char)
    ensures
        last_index(s, c) matches Some(k) ==> 0 <= k < s.len() && s[k] == c && forall|m: int|
            k < m < s.len() ==> s[m] != c,
        last_index(s, c) is None ==> forall|m: int| 0 <= m < s.len() ==> s[m] != c,
    decreases s.len(),
{
    if s.len() > 0 && s.last() != c {
        lemma_last_index(s.drop_last(), c);
        assert forall|m: int| 0 <= m < s.len() - 1 implies s.drop_last()[m] == s[m] by {}
    }
}

/// The last component of a path: everything after its last `/`.
pub open spec fn file_name(p: Seq<char>) -> Seq<char> {
    match last_index(p, '/') {
        Some(k) => p.skip(k + 1),
        None => p,
    }
}

/// The directory of a path: everything before its last `/` (empty when it has none).
pub open spec fn parent(p: Seq<char>) -> Seq<char> {
    match last_index(p, '/') {
        Some(k) => p.take(k),
        None => seq![],
    }
}

/// A file name split at its last dot into stem and extension. A name whose only dot is its
/// first character, a name without a dot, and `..` have no extension.
pub open spec fn split_name(name: Seq<char>) -> (Seq<char>, Option<Seq<char>>) {
    if name == seq!['.', '.'] {
        (name, None)
    } else {
        match last_index(name, '.') {
            Some(k) => if k == 0 {
                (name, None)
            } else {
                (name.take(k), Some(name.skip(k + 1)))
            },
            None => (name, None),
        }
    }
}

/// `Path::file_stem`, as a string (empty when there is no file name).
pub open spec fn file_stem(p: Seq<char>) -> Seq<char> {
    split_name(file_name(p)).0
}

/// `Path::extension`, as a string (empty when there is none).
pub open spec fn extension(p: Seq<char>) -> Seq<char> {
    match split_name(file_name(p)).1 {
        Some(e) => e,
        None => seq![],
    }
}

/// The position of the last `c` in `s`.
pub fn last_index_of(s: &Vec<char>, c: char) -> (r: Option<usize>)
    ensures
        match r {
            Some(k) => last_index(s@, c) == Some(k as int),
            None => last_index(s@, c) is None,
        },
{
    let mut k = s.len();
    assert(s@.take(k as int) =~= s@);
    while k > 0
        invariant
            k <= s.len(),
            last_index(s@, c) == last_index(s@.take(k as int), c),
        decreases k,
    {
        assert(s@.take(k as int).drop_last() =~= s@.take(k - 1));
        if s[k - 1] == c {
            return Some(k - 1);
        }
        k = k - 1;
    }
    None
}

/// The characters after the last `/`.
pub fn file_name_of(p: &Vec<char>) -> (r: Vec<char>)
    ensures
        r@ == file_name(p@),
{
    match last_index_of(p, '/') {
        Some(k) => {
            proof {
                lemma_last_index(p@, '/');
            }
            assert(k < p.len());
            let r = text::slice_chars(p, k + 1, p.len());
            assert(r@ =~= p@.skip(k + 1));
            r
        },
        None => text::slice_chars(p, 0, p.len()),
    }
}

/// The characters before the last `/`.
pub fn parent_of(p: &Vec<char>) -> (r: Vec<char>)
    ensures
        r@ == parent(p@),
{
    match last_index_of(p, '/') {
        Some(k) => {
            proof {
                lemma_last_index(p@, '/');
            }
            let r = text::slice_chars(p, 0, k);
            assert(r@ =~= p@.take(k as int));
            r
        },
        None => Vec::new(),
    }
}

/// A file name split into stem and extension.
pub fn split_name_of(name: &Vec<char>) -> (r: (Vec<char>, Option<Vec<char>>))
    ensures
        r.0@ == split_name(name@).0,
        match r.1 {
            Some(e) => split_name(name@).1 == Some(e@),
            None => split_name(name@).1 is None,
        },
{
    let whole = text::slice_chars(name, 0, name.len());
    assert(whole@ =~= name@);
    if name.len() == 2 && name[0] == '.' && name[1] == '.' {
        assert(name@ =~= seq!['.', '.']);
        return (whole, None);
    }
    assert(name@ != seq!['.', '.']);
    match last_index_of(name, '.') {
        Some(k) => {
            proof {
                lemma_last_index(name@, '.');
            }
            assert(k < name.len());
            if k == 0 {
                (whole, None)
            } else {
                let stem = text::slice_chars(name, 0, k);
                let ext = text::slice_chars(name, k + 1, name.len());
                assert(stem@ =~= name@.take(k as int));
                assert(ext@ =~= name@.skip(k + 1));
                (stem, Some(ext))
            }
        },
        None => (whole, None),
    }
}

/// The file stem of a path.
pub fn file_stem_of(p: &Vec<char>) -> (r: Vec<char>)
    ensures
        r@ == file_stem(p@),
{
    let name = file_name_of(p);
    split_name_of(&name).0
}

/// The extension of a path, empty when it has none.
pub fn extension_of(p: &Vec<char>) -> (r: Vec<char>)
    ensures
        r@ == extension(p@),
{
    let name = file_name_of(p);
    match split_name_of(&name).1 {
        Some(e) => e,
        None => Vec::new(),
    }
}

/// `dir` and `name` joined with one `/` (just `name` when `dir` is empty).
pub open spec fn join_path(dir: Seq<char>, name: Seq<char>) -> Seq<char> {
    if dir.len() == 0 {
        name
    } else if dir.last() == '/' {
        dir + name
    } else {
        dir + seq!['/'] + name
    }
}

/// `dir` and `name` joined with one `/`.
pub fn join_path_chars(dir: &Vec<char>, name: &Vec<char>) -> (r: Vec<char>)
    ensures
        r@ == join_path(dir@, name@),
{
    let mut r = text::slice_chars(dir, 0, dir.len());
    assert(r@ =~= dir@);
    if dir.len() > 0 && dir[dir.len() - 1] != '/' {
        r.push('/');
    }
    text::push_chars(&mut r, name);
    r
}

/// The component strings of a path.
pub open spec fn comp_views(v: Seq<Vec<char>>) -> Seq<Seq<char>> {
    v.map_values(|c: Vec<char>| c@)
}

/// `ps` without the pieces that are a lone `.`.
pub open spec fn no_dots(ps: Seq<Seq<char>>) -> Seq<Seq<char>>
    decreases ps.len(),
{
    if ps.len() == 0 {
        seq![]
    } else if ps.last() == seq!['.'] {
        no_dots(ps.drop_last())
    } else {
        no_dots(ps.drop_last()).push(ps.last())
    }
}

/// The components of a path, as std's `Path::components` reads a Unix path: `/` first for an
/// absolute path, `.` first for a path that starts with `./` or is `.`, then the names between
/// separators, without empty names and without other `.` names.
pub open spec fn components(p: Seq<char>) -> Seq<Seq<char>> {
    let body = no_dots(pieces(p, Class::Slash));
    if p.len() > 0 && p[0] == '/' {
        seq![seq!['/']] + body
    } else if p.len() > 0 && p[0] == '.' && (p.len() == 1 || p[1] == '/') {
        seq![seq!['.']] + body
    } else {
        body
    }
}

/// The components of `p`, as [`components`] reads them.
pub fn path_components(p: &str) -> (r: Vec<Vec<char>>)
    ensures
        comp_views(r@) == components(p@),
{
    let cs = text::chars_of(p);
    let ps = text::split_pieces(&cs, Class::Slash);
    let ghost pv = pieces(cs@, Class::Slash);
    let ghost head: Seq<Seq<char>> = if cs@.len() > 0 && cs@[0] == '/' {
        seq![seq!['/']]
    } else if cs@.len() > 0 && cs@[0] == '.' && (cs@.len() == 1 || cs@[1] == '/') {
        seq![seq!['.']]
    } else {
        seq![]
    };
    let mut out: Vec<Vec<char>> = Vec::new();
    if cs.len() > 0 && cs[0] == '/' {
        let mut w: Vec<char> = Vec::new();
        w.push('/');
        out.push(w);
    } else if cs.len() > 0 && cs[0] == '.' && (cs.len() == 1 || cs[1] == '/') {
        let mut w: Vec<char> = Vec::new();
        w.push('.');
        out.push(w);
    }
    assert(comp_views(out@) =~= head);
    assert(no_dots(pv.take(0)) =~= Seq::<Seq<char>>::empty());
    let mut i: usize = 0;
    while i < ps.len()
        invariant
            i <= ps.len(),
            ps@.map_values(|w: Vec<char>| w@) == pv,
            comp_views(out@) == head + no_dots(pv.take(i as int)),
        decreases ps.len() - i,
    {
        assert(pv.take(i + 1).drop_last() =~= pv.take(i as int));
        assert(pv.take(i + 1).last() == pv[i as int]);
        assert(pv[i as int] == ps@[i as int]@);
        let w = &ps[i];
        let dot = w.len() == 1 && w[0] == '.';
        assert(dot == (ps@[i as int]@ =~= seq!['.']));
        if !dot {
            let ghost before = comp_views(out@);
            out.push(w.clone());
            assert(comp_views(out@) =~= before.push(w@));
            assert(comp_views(out@) =~= head + no_dots(pv.take(i + 1)));
        }
        i = i + 1;
    }
    assert(pv.take(ps.len() as int) =~= pv);
    out
}

/// Where a component sorts by its kind: the root, then `.`, then `..`, then names.
pub open spec fn comp_rank(c: Seq<char>) -> int {
    if c == seq!['/'] {
        0
    } else if c == seq!['.'] {
        1
    } else if c == seq!['.', '.'] {
        2
    } else {
        3
    }
}

/// Component `a` sorts before component `b`: by kind, then names by their characters.
pub open spec fn comp_lt(a: Seq<char>, b: Seq<char>) -> bool {
    if comp_rank(a) != comp_rank(b) {
        comp_rank(a) < comp_rank(b)
    } else {
        comp_rank(a) == 3 && lex_lt(a, b)
    }
}

/// Path components `a` sort before `b`, component by component, as std orders paths.
pub open spec fn comps_lt(a: Seq<Seq<char>>, b: Seq<Seq<char>>) -> bool
    decreases a.len(),
{
    if a.len() == 0 {
        b.len() > 0
    } else if b.len() == 0 {
        false
    } else if a[0] != b[0] {
        comp_lt(a[0], b[0])
    } else {
        comps_lt(a.drop_first(), b.drop_first())
    }
}

fn comp_rank_of(c: &Vec<char>) -> (r: u8)
    ensures
        r == comp_rank(c@),
{
    if c.len() == 1 && c[0] == '/' {
        assert(c@ =~= seq!['/']);
        0
    } else if c.len() == 1 && c[0] == '.' {
        assert(c@ =~= seq!['.']);
        1
    } else if c.len() == 2 && c[0] == '.' && c[1] == '.' {
        assert(c@ =~= seq!['.', '.']);
        2
    } else {
        assert(c@ != seq!['/']);
        assert(c@ != seq!['.']);
        assert(c@ != seq!['.', '.']);
        3
    }
}

/// Whether components `a` sort before `b`.
pub fn comps_less(a: &Vec<Vec<char>>, b: &Vec<Vec<char>>) -> (r: bool)
    ensures
        r == comps_lt(comp_views(a@), comp_views(b@)),
{
    let ghost av = comp_views(a@);
    let ghost bv = comp_views(b@);
    let mut i: usize = 0;
    assert(av.skip(0) =~= av && bv.skip(0) =~= bv);
    while i < a.len() && i < b.len() && text::eq_chars(&a[i], &b[i])
        invariant
            i <= a.len(),
            i <= b.len(),
            av == comp_views(a@),
            bv == comp_views(b@),
            comps_lt(av, bv) == comps_lt(av.skip(i as int), bv.skip(i as int)),
        decreases a.len() - i,
    {
        proof {
            assert(av.skip(i as int).drop_first() =~= av.skip(i + 1));
            assert(bv.skip(i as int).drop_first() =~= bv.skip(i + 1));
            assert(av.skip(i as int)[0] == bv.skip(i as int)[0]);
        }
        i = i + 1;
    }
    if i == a.len() {
        i < b.len()
    } else if i == b.len() {
        false
    } else {
        assert(av.skip(i as int)[0] == a@[i as int]@ && bv.skip(i as int)[0] == b@[i as int]@);
        let ra = comp_rank_of(&a[i]);
        let rb = comp_rank_of(&b[i]);
        if ra != rb {
            ra < rb
        } else {
            ra == 3 && lex_less(&a[i], &b[i])
        }
    }
}

/// No component list sorts before itself.
pub proof fn lemma_comps_irrefl(a: Seq<Seq<char>>)
    ensures
        !comps_lt(a, a),
    decreases a.len(),
{
    if a.len() > 0 {
        lemma_comps_irrefl(a.drop_first());
    }
}

proof fn lemma_comp_trans(a: Seq<char>, b: Seq<char>, c: Seq<char>)
    requires
        comp_lt(a, b),
        comp_lt(b, c),
    ensures
        comp_lt(a, c),
{
    if comp_rank(a) == comp_rank(b) && comp_rank(b) == comp_rank(c) {
        lemma_lex_trans(a, b, c);
    }
}

proof fn lemma_comp_irrefl(a: Seq<char>)
    ensures
        !comp_lt(a, a),
{
    lemma_lex_irrefl(a);
}

/// Sorting before is transitive for component lists.
pub proof fn lemma_comps_trans(a: Seq<Seq<char>>, b: Seq<Seq<char>>, c: Seq<Seq<char>>)
    requires
        comps_lt(a, b),
        comps_lt(b, c),
    ensures
        comps_lt(a, c),
    decreases a.len(),
{
    if a.len() > 0 && b.len() > 0 && c.len() > 0 {
        if a[0] == b[0] && b[0] == c[0] {
            lemma_comps_trans(a.drop_first(), b.drop_first(), c.drop_first());
        } else if a[0] != b[0] && b[0] != c[0] {
            lemma_comp_trans(a[0], b[0], c[0]);
            if a[0] == c[0] {
                lemma_comp_irrefl(a[0]);
            }
        }
    }
}

/// The last `/` of `s + "/" + n`, for `n` without one, is the one added.
proof fn lemma_last_index_join(s: Seq<char>, n: Seq<char>)
    requires
        forall|m: int| 0 <= m < n.len() ==> n[m] != '/',
    ensures
        last_index(s + seq!['/'] + n, '/') == Some(s.len() as int),
    decreases n.len(),
{
    let p = s + seq!['/'] + n;
    if n.len() > 0 {
        lemma_last_index_join(s, n.drop_last());
        assert(p.drop_last() =~= s + seq!['/'] + n.drop_last());
        assert(p.last() == n.last());
    } else {
        assert(p.last() == '/');
    }
}

/// The directory of `s + "/" + n` is `s`, and its file name `n`, for `n` without a `/`.
pub proof fn lemma_join_parts(s: Seq<char>, n: Seq<char>)
    requires
        forall|m: int| 0 <= m < n.len() ==> n[m] != '/',
    ensures
        parent(s + seq!['/'] + n) == s,
        file_name(s + seq!['/'] + n) == n,
{
    lemma_last_index_join(s, n);
    let p = s + seq!['/'] + n;
    assert(p.take(s.len() as int) =~= s);
    assert(p.skip(s.len() as int + 1) =~= n);
}

} // verus!
