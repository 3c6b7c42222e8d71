//! Duplicate detection for an import, in two directions. Within the scan, copies of a photo
//! collapse to one: the copy nearest the top of the tree (fewest path components, then first
//! by path) is imported, the rest are marked as its copies. Against the catalog, a photo the
//! library already holds is marked: an import keeps a file's modification time, so a catalog
//! file with the photo's name, size and modification time settles it without reading either;
//! one with the same name and size but another time is compared by its bytes. Only files whose
//! name and size already match something are read, so a card of new photos is checked without
//! reading it.

use crate::catalog::ImportDupes;
use crate::datetime::DateTime;
use crate::paths::{comp_views, components, comps_less, comps_lt, file_name, file_name_of, lemma_comps_irrefl, lemma_comps_trans, path_components};
use crate::plan::scan_wf;
use crate::scan::Scan;
use crate::strindex::{hash_chars, index_inv, str_hash, views, StrIndex};
use crate::text;
use std::collections::HashMap;
use vstd::prelude::*;

verus! {

/// Path components `a` lie nearer the top of the tree than `b`: fewer of them, or as many and
/// `a` first by path.
pub open spec fn nearer(a: Seq<Seq<char>>, b: Seq<Seq<char>>) -> bool {
    a.len() < b.len() || (a.len() == b.len() && comps_lt(a, b))
}

proof fn lemma_nearer_irrefl(a: Seq<Seq<char>>)
    ensures
        !nearer(a, a),
{
    lemma_comps_irrefl(a);
}

proof fn lemma_nearer_trans(a: Seq<Seq<char>>, b: Seq<Seq<char>>, c: Seq<Seq<char>>)
    requires
        nearer(a, b),
        nearer(b, c),
    ensures
        nearer(a, c),
{
    if a.len() == b.len() && b.len() == c.len() {
        lemma_comps_trans(a, b, c);
    }
}

fn nearer_exec(a: &Vec<Vec<char>>, b: &Vec<Vec<char>>) -> (r: bool)
    ensures
        r == nearer(comp_views(a@), comp_views(b@)),
{
    a.len() < b.len() || (a.len() == b.len() && comps_less(a, b))
}


/// The primary file of a group, which stands for the group: its path, size and name.
#[derive(Clone, Debug)]
pub struct Primary {
    pub group: u32,
    pub path: String,
    pub size: u64,
    pub name: String,
    /// The modification time, to the second, when it could be read.
    pub mtime: Option<DateTime>,
}

/// A catalog file still on disk: its name, size, recorded hash if any, full path and
/// modification time (local wall-clock time, to the second) when recorded.
#[derive(Clone, Debug)]
pub struct CatalogFile {
    pub name: String,
    pub size: i64,
    pub blake3: Option<String>,
    pub path: String,
    pub mtime: Option<DateTime>,
}

/// The primary of each group of `scan`, in group order.
pub fn primaries(scan: &Scan) -> (r: Vec<Primary>)
    requires
        scan_wf(*scan),
    ensures
        r.len() == scan.groups.len(),
        forall|i: int|
            0 <= i < r.len() ==> {
                let f = scan.files@[scan.groups@[i].primary.0 as int];
                &&& (#[trigger] r@[i]).group == scan.groups@[i].id.0
                &&& r@[i].path@ == f.path@
                &&& r@[i].size == f.size
                &&& r@[i].name@ == file_name(f.path@)
                &&& r@[i].mtime == f.mtime
            },
{
    let mut out: Vec<Primary> = Vec::new();
    let mut i: usize = 0;
    while i < scan.groups.len()
        invariant
            i <= scan.groups.len(),
            scan_wf(*scan),
            out.len() == i,
            forall|k: int|
                0 <= k < i ==> {
                    let f = scan.files@[scan.groups@[k].primary.0 as int];
                    &&& (#[trigger] out@[k]).group == scan.groups@[k].id.0
                    &&& out@[k].path@ == f.path@
                    &&& out@[k].size == f.size
                    &&& out@[k].name@ == file_name(f.path@)
                    &&& out@[k].mtime == f.mtime
                },
        decreases scan.groups.len() - i,
    {
        let g = &scan.groups[i];
        assert(scan.groups@[i as int] == *g);
        let f = scan.file(g.primary);
        let name = text::string_of(&file_name_of(&text::chars_of(f.path.as_str())));
        let path = text::string_of(&text::chars_of(f.path.as_str()));
        out.push(Primary { group: g.id.0, path, size: f.size, name, mtime: f.mtime });
        i = i + 1;
    }
    out
}

/// Two primaries share a name and a size.
pub open spec fn same_key(p: Primary, q: Primary) -> bool {
    p.name@ == q.name@ && p.size == q.size
}

/// A catalog file has a primary's modification time (which an import keeps).
pub open spec fn same_mtime(p: Primary, r: CatalogFile) -> bool {
    p.mtime is Some && r.mtime == p.mtime
}

/// A catalog file has a primary's name and size but another modification time, so only the
/// bytes can tell whether it holds the same photo.
pub open spec fn row_match(p: Primary, r: CatalogFile) -> bool {
    r.name@ == p.name@ && r.size == p.size as i64 && !same_mtime(p, r)
}

/// A catalog file has a primary's name, size and modification time: the photo is already
/// there, without reading either file.
pub open spec fn mtime_match(p: Primary, r: CatalogFile) -> bool {
    r.name@ == p.name@ && r.size == p.size as i64 && same_mtime(p, r)
}

fn same_mtime_exec(p: &Primary, r: &CatalogFile) -> (b: bool)
    ensures
        b == same_mtime(*p, *r),
{
    match (p.mtime, r.mtime) {
        (Some(a), Some(c)) => a == c,
        _ => false,
    }
}

/// The first of the first `m` catalog files that a primary's name, size and modification
/// time match.
pub open spec fn first_mtime_row(p: Primary, rows: Seq<CatalogFile>, m: int) -> Option<int>
    decreases m,
{
    if m <= 0 {
        None
    } else {
        match first_mtime_row(p, rows, m - 1) {
            Some(q) => Some(q),
            None => if mtime_match(p, rows[m - 1]) {
                Some(m - 1)
            } else {
                None
            },
        }
    }
}

/// `km` with, for each of the first `k` primaries that a catalog file matches by name, size
/// and modification time, the path of the first such file.
pub open spec fn with_mtime_known(ps: Seq<Primary>, rows: Seq<CatalogFile>, km: Map<u32, Seq<char>>, k: int) -> Map<
    u32,
    Seq<char>,
>
    decreases k,
{
    if k <= 0 {
        km
    } else {
        let m = with_mtime_known(ps, rows, km, k - 1);
        match first_mtime_row(ps[k - 1], rows, rows.len() as int) {
            Some(q) => m.insert(ps[k - 1].group, rows[q].path@),
            None => m,
        }
    }
}

/// Primary `i` shares its name and size with another primary, or with a catalog file whose
/// modification time differs from its own.
pub open spec fn suspect(ps: Seq<Primary>, rows: Seq<CatalogFile>, i: int) -> bool {
    ||| exists|j: int| 0 <= j < ps.len() && j != i && #[trigger] same_key(ps[j], ps[i])
    ||| exists|r: int| 0 <= r < rows.len() && #[trigger] row_match(ps[i], rows[r])
}

/// The suspects below `k`, in increasing order.
pub open spec fn suspects(ps: Seq<Primary>, rows: Seq<CatalogFile>, k: int) -> Seq<int>
    decreases k,
{
    if k <= 0 {
        seq![]
    } else if suspect(ps, rows, k - 1) {
        suspects(ps, rows, k - 1).push(k - 1)
    } else {
        suspects(ps, rows, k - 1)
    }
}

/// The first primary below `n` that catalog file `row` matches.
pub open spec fn first_match(ps: Seq<Primary>, row: CatalogFile, n: int) -> Option<int>
    decreases n,
{
    if n <= 0 {
        None
    } else {
        match first_match(ps, row, n - 1) {
            Some(i) => Some(i),
            None => if row_match(ps[n - 1], row) {
                Some(n - 1)
            } else {
                None
            },
        }
    }
}

proof fn lemma_first_match(ps: Seq<Primary>, row: CatalogFile, n: int)
    requires
        0 <= n <= ps.len(),
    ensures
        first_match(ps, row, n) matches Some(i) ==> 0 <= i < n && row_match(ps[i], row) && forall|j: int|
            0 <= j < i ==> !row_match(#[trigger] ps[j], row),
        first_match(ps, row, n) is None ==> forall|j: int| 0 <= j < n ==> !row_match(#[trigger] ps[j], row),
    decreases n,
{
    if n > 0 {
        lemma_first_match(ps, row, n - 1);
    }
}

/// The names of `ps` as character vectors.
fn name_chars(ps: &Vec<Primary>) -> (r: Vec<Vec<char>>)
    ensures
        r.len() == ps.len(),
        forall|i: int| 0 <= i < ps.len() ==> (#[trigger] r@[i])@ == ps@[i].name@,
{
    let mut out: Vec<Vec<char>> = Vec::new();
    let mut i: usize = 0;
    while i < ps.len()
        invariant
            i <= ps.len(),
            out.len() == i,
            forall|k: int| 0 <= k < i ==> (#[trigger] out@[k])@ == ps@[k].name@,
        decreases ps.len() - i,
    {
        out.push(text::chars_of(ps[i].name.as_str()));
        i = i + 1;
    }
    out
}

/// An index of `keys` by hash, holding every position.
fn index_of(keys: &Vec<Vec<char>>) -> (r: StrIndex)
    ensures
        index_inv(r, views(keys@), Set::new(|x: int| 0 <= x < keys.len())),
{
    let mut idx = StrIndex::new();
    let mut j: usize = 0;
    while j < keys.len()
        invariant
            j <= keys.len(),
            index_inv(idx, views(keys@), Set::new(|x: int| 0 <= x < j)),
        decreases keys.len() - j,
    {
        idx.add(keys, j, Ghost(Set::new(|x: int| 0 <= x < j)));
        assert(Set::new(|x: int| 0 <= x < j).insert(j as int) =~= Set::new(|x: int| 0 <= x < j + 1));
        j = j + 1;
    }
    idx
}

/// Whether each primary shares its name and size with another.
fn shared_in_scan(ps: &Vec<Primary>, names: &Vec<Vec<char>>, idx: &StrIndex) -> (r: Vec<bool>)
    requires
        names.len() == ps.len(),
        forall|i: int| 0 <= i < ps.len() ==> (#[trigger] names@[i])@ == ps@[i].name@,
        index_inv(*idx, views(names@), Set::new(|x: int| 0 <= x < names.len())),
    ensures
        r.len() == ps.len(),
        forall|i: int|
            0 <= i < ps.len() ==> (#[trigger] r@[i] <==> exists|j: int| 0 <= j < ps.len() && j != i && #[trigger] same_key(ps@[j], ps@[i])),
{
    let ghost all = Set::new(|x: int| 0 <= x < names.len());
    let ghost kv = views(names@);
    let mut out: Vec<bool> = Vec::new();
    let mut i: usize = 0;
    while i < ps.len()
        invariant
            i <= ps.len(),
            names.len() == ps.len(),
            forall|k: int| 0 <= k < ps.len() ==> (#[trigger] names@[k])@ == ps@[k].name@,
            all == Set::new(|x: int| 0 <= x < names.len()),
            kv == views(names@),
            index_inv(*idx, kv, all),
            out.len() == i,
            forall|k: int|
                0 <= k < i ==> (#[trigger] out@[k] <==> exists|j: int| 0 <= j < ps.len() && j != k && #[trigger] same_key(ps@[j], ps@[k])),
        decreases ps.len() - i,
    {
        let h = hash_chars(&names[i]);
        let b = idx.bucket(h, Ghost(kv), Ghost(all));
        let mut found = false;
        let mut t: usize = 0;
        while t < b.len()
            invariant
                i < ps.len(),
                names.len() == ps.len(),
                forall|k: int| 0 <= k < ps.len() ==> (#[trigger] names@[k])@ == ps@[k].name@,
                all == Set::new(|x: int| 0 <= x < names.len()),
                t <= b.len(),
                forall|u: int| 0 <= u < b@.len() ==> all.contains(#[trigger] b@[u] as int),
                found ==> exists|j: int| 0 <= j < ps.len() && j != i && #[trigger] same_key(ps@[j], ps@[i as int]),
                !found ==> forall|u: int| 0 <= u < t ==> !(b@[u] != i && #[trigger] same_key(ps@[b@[u] as int], ps@[i as int])),
            decreases b.len() - t,
        {
            let j = b[t];
            assert(all.contains(j as int));
            if j != i && text::eq_chars(&names[j], &names[i]) && ps[j].size == ps[i].size {
                assert(same_key(ps@[j as int], ps@[i as int]));
                found = true;
            }
            t = t + 1;
        }
        proof {
            if !found {
                assert forall|j: int| 0 <= j < ps.len() && j != i implies !#[trigger] same_key(ps@[j], ps@[i as int]) by {
                    if same_key(ps@[j], ps@[i as int]) {
                        assert(kv[j] == kv[i as int]);
                        assert(all.contains(j));
                        assert(b@.contains(j as usize));
                        let u = choose|u: int| 0 <= u < b@.len() && b@[u] == j as usize;
                        assert(!(b@[u] != i && same_key(ps@[b@[u] as int], ps@[i as int])));
                    }
                }
            }
        }
        out.push(found);
        i = i + 1;
    }
    out
}

/// For each catalog file, the first primary it matches; and for each primary, whether some
/// catalog file matches it.
fn catalog_pass(ps: &Vec<Primary>, rows: &Vec<CatalogFile>, names: &Vec<Vec<char>>, idx: &StrIndex) -> (r: (
    Vec<bool>,
    Vec<Option<usize>>,
))
    requires
        names.len() == ps.len(),
        forall|i: int| 0 <= i < ps.len() ==> (#[trigger] names@[i])@ == ps@[i].name@,
        index_inv(*idx, views(names@), Set::new(|x: int| 0 <= x < names.len())),
    ensures
        r.0.len() == ps.len(),
        forall|i: int|
            0 <= i < ps.len() ==> (#[trigger] r.0@[i] <==> exists|q: int| 0 <= q < rows.len() && #[trigger] row_match(ps@[i], rows@[q])),
        r.1.len() == rows.len(),
        forall|q: int|
            0 <= q < rows.len() ==> #[trigger] r.1@[q] == match first_match(ps@, rows@[q], ps.len() as int) {
                Some(i) => Some(i as usize),
                None => None::<usize>,
            },
{
    let ghost all = Set::new(|x: int| 0 <= x < names.len());
    let ghost kv = views(names@);
    let mut in_cat: Vec<bool> = Vec::new();
    let mut i: usize = 0;
    while i < ps.len()
        invariant
            i <= ps.len(),
            in_cat.len() == i,
            forall|k: int| 0 <= k < i ==> !(#[trigger] in_cat@[k]),
        decreases ps.len() - i,
    {
        in_cat.push(false);
        i = i + 1;
    }
    let mut firsts: Vec<Option<usize>> = Vec::new();
    let mut q: usize = 0;
    while q < rows.len()
        invariant
            q <= rows.len(),
            names.len() == ps.len(),
            forall|k: int| 0 <= k < ps.len() ==> (#[trigger] names@[k])@ == ps@[k].name@,
            all == Set::new(|x: int| 0 <= x < names.len()),
            kv == views(names@),
            index_inv(*idx, kv, all),
            in_cat.len() == ps.len(),
            forall|k: int|
                0 <= k < ps.len() ==> (#[trigger] in_cat@[k] <==> exists|w: int| 0 <= w < q && #[trigger] row_match(ps@[k], rows@[w])),
            firsts.len() == q,
            forall|w: int|
                0 <= w < q ==> #[trigger] firsts@[w] == match first_match(ps@, rows@[w], ps.len() as int) {
                    Some(i) => Some(i as usize),
                    None => None::<usize>,
                },
        decreases rows.len() - q,
    {
        let row = &rows[q];
        let rn = text::chars_of(row.name.as_str());
        let h = hash_chars(&rn);
        let b = idx.bucket(h, Ghost(kv), Ghost(all));
        let ghost before = in_cat@;
        let mut first: Option<usize> = None;
        let mut t: usize = 0;
        while t < b.len()
            invariant
                q < rows.len(),
                *row == rows@[q as int],
                rn@ == row.name@,
                names.len() == ps.len(),
                forall|k: int| 0 <= k < ps.len() ==> (#[trigger] names@[k])@ == ps@[k].name@,
                all == Set::new(|x: int| 0 <= x < names.len()),
                t <= b.len(),
                forall|u: int| 0 <= u < b@.len() ==> all.contains(#[trigger] b@[u] as int),
                forall|u: int, v: int| 0 <= u < v < b@.len() ==> #[trigger] b@[u] < #[trigger] b@[v],
                in_cat.len() == ps.len(),
                forall|k: int|
                    0 <= k < ps.len() ==> (#[trigger] in_cat@[k] <==> before[k] || exists|u: int|
                        0 <= u < t && b@[u] == k && row_match(ps@[k], *row)),
                first matches Some(f) ==> exists|u: int| 0 <= u < t && b@[u] == f && #[trigger] row_match(ps@[f as int], *row),
                first matches Some(f) ==> forall|u: int| 0 <= u < t && b@[u] < f ==> !#[trigger] row_match(ps@[b@[u] as int], *row),
                first is None ==> forall|u: int| 0 <= u < t ==> !#[trigger] row_match(ps@[b@[u] as int], *row),
            decreases b.len() - t,
        {
            let j = b[t];
            assert(all.contains(j as int));
            if text::eq_chars(&names[j], &rn) && row.size == ps[j].size as i64 && !same_mtime_exec(&ps[j], row) {
                assert(row_match(ps@[j as int], *row));
                in_cat.set(j, true);
                if first.is_none() {
                    first = Some(j);
                }
            }
            t = t + 1;
        }
        proof {
            lemma_first_match(ps@, *row, ps.len() as int);
            // Every primary the row matches is in the bucket.
            assert forall|k: int| 0 <= k < ps.len() && #[trigger] row_match(ps@[k], *row) implies b@.contains(k as usize) by {
                assert(kv[k] == rn@);
                assert(str_hash(kv[k]) == h);
                assert(all.contains(k));
            }
            match first_match(ps@, *row, ps.len() as int) {
                Some(m) => {
                    assert(b@.contains(m as usize));
                    let um = choose|u: int| 0 <= u < b@.len() && b@[u] == m as usize;
                    match first {
                        Some(f) => {
                            let uf = choose|u: int| 0 <= u < t && b@[u] == f && #[trigger] row_match(ps@[f as int], *row);
                            if (f as int) < m {
                            } else if m < (f as int) {
                                assert(!row_match(ps@[b@[um] as int], *row));
                            }
                        },
                        None => {
                            assert(!row_match(ps@[b@[um] as int], *row));
                        },
                    }
                },
                None => {
                    if let Some(f) = first {
                        let uf = choose|u: int| 0 <= u < t && b@[u] == f && #[trigger] row_match(ps@[f as int], *row);
                        assert(all.contains(f as int));
                    }
                },
            }
            assert forall|k: int| 0 <= k < ps.len() implies (#[trigger] in_cat@[k] <==> exists|w: int|
                0 <= w < q + 1 && #[trigger] row_match(ps@[k], rows@[w])) by {
                if row_match(ps@[k], rows@[q as int]) {
                    assert(b@.contains(k as usize));
                    let u = choose|u: int| 0 <= u < b@.len() && b@[u] == k as usize;
                    assert(in_cat@[k]);
                }
                if exists|w: int| 0 <= w < q + 1 && #[trigger] row_match(ps@[k], rows@[w]) {
                    let w = choose|w: int| 0 <= w < q + 1 && #[trigger] row_match(ps@[k], rows@[w]);
                    if w < q {
                        assert(before[k]);
                    }
                }
            }
        }
        firsts.push(first);
        q = q + 1;
    }
    (in_cat, firsts)
}

/// An optional string as characters.
pub open spec fn opt_view(o: Option<String>) -> Option<Seq<char>> {
    match o {
        Some(s) => Some(s@),
        None => None,
    }
}

/// The first entry of `l` whose hash is `h`.
pub open spec fn pos_of(l: Seq<(Seq<char>, int, int)>, h: Seq<char>) -> Option<int>
    decreases l.len(),
{
    if l.len() == 0 {
        None
    } else {
        match pos_of(l.drop_last(), h) {
            Some(q) => Some(q),
            None => if l.last().0 == h {
                Some(l.len() - 1)
            } else {
                None
            },
        }
    }
}

proof fn lemma_pos_of(l: Seq<(Seq<char>, int, int)>, h: Seq<char>)
    ensures
        pos_of(l, h) matches Some(q) ==> 0 <= q < l.len() && l[q].0 == h,
        pos_of(l, h) is None ==> forall|q: int| 0 <= q < l.len() ==> (#[trigger] l[q]).0 != h,
    decreases l.len(),
{
    if l.len() > 0 {
        lemma_pos_of(l.drop_last(), h);
        assert forall|q: int| 0 <= q < l.len() - 1 implies l.drop_last()[q] == l[q] by {}
    }
}

/// For each hash found among the catalog files that match a primary, the (hash, primary,
/// file) of the earliest such match, primaries first, then files in order: that file is the
/// one the catalog is said to hold the bytes at. `rh` is each file's hash, where known.
pub open spec fn known_list(ps: Seq<Primary>, rows: Seq<CatalogFile>, rh: Seq<Option<Seq<char>>>, m: int) -> Seq<
    (Seq<char>, int, int),
>
    decreases m,
{
    if m <= 0 {
        seq![]
    } else {
        let l = known_list(ps, rows, rh, m - 1);
        let r = m - 1;
        match (first_match(ps, rows[r], ps.len() as int), rh[r]) {
            (Some(i), Some(h)) => match pos_of(l, h) {
                None => l.push((h, i, r)),
                Some(q) => if i < l[q].1 {
                    l.update(q, (h, i, r))
                } else {
                    l
                },
            },
            _ => l,
        }
    }
}

/// Where the catalog holds the bytes with hash `h`, if it does.
pub open spec fn known_path(rows: Seq<CatalogFile>, kl: Seq<(Seq<char>, int, int)>, h: Seq<char>) -> Option<Seq<char>> {
    match pos_of(kl, h) {
        Some(q) => Some(rows[kl[q].2].path@),
        None => None,
    }
}

pub open spec fn kl_views(l: Seq<(Vec<char>, usize, usize)>) -> Seq<(Seq<char>, int, int)> {
    l.map_values(|x: (Vec<char>, usize, usize)| (x.0@, x.1 as int, x.2 as int))
}

fn pos_exec(l: &Vec<(Vec<char>, usize, usize)>, h: &Vec<char>) -> (r: Option<usize>)
    ensures
        match r {
            Some(q) => pos_of(kl_views(l@), h@) == Some(q as int),
            None => pos_of(kl_views(l@), h@) is None,
        },
{
    let ghost lv = kl_views(l@);
    let mut q: usize = 0;
    while q < l.len()
        invariant
            q <= l.len(),
            lv == kl_views(l@),
            pos_of(lv.take(q as int), h@) is None,
        decreases l.len() - q,
    {
        assert(lv.take(q + 1).drop_last() =~= lv.take(q as int));
        if text::eq_chars(&l[q].0, h) {
            proof {
                lemma_pos_of_stays(lv, h@, q + 1, l.len() as int);
                assert(lv.take(l.len() as int) =~= lv);
            }
            return Some(q);
        }
        q = q + 1;
    }
    assert(lv.take(l.len() as int) =~= lv);
    None
}

proof fn lemma_pos_of_stays(l: Seq<(Seq<char>, int, int)>, h: Seq<char>, k: int, n: int)
    requires
        0 < k <= n <= l.len(),
        pos_of(l.take(k), h) is Some,
    ensures
        pos_of(l.take(n), h) == pos_of(l.take(k), h),
    decreases n - k,
{
    if k < n {
        lemma_pos_of_stays(l, h, k, n - 1);
        assert(l.take(n).drop_last() =~= l.take(n - 1));
    }
}

/// The known list, from each catalog file's first matching primary and hash.
fn known_exec(
    rows: &Vec<CatalogFile>,
    firsts: &Vec<Option<usize>>,
    rh: &Vec<Option<String>>,
    Ghost(ps): Ghost<Seq<Primary>>,
) -> (r: Vec<(Vec<char>, usize, usize)>)
    requires
        firsts.len() == rows.len(),
        rh.len() == rows.len(),
        ps.len() <= usize::MAX,
        forall|q: int|
            0 <= q < rows.len() ==> #[trigger] firsts@[q] == match first_match(ps, rows@[q], ps.len() as int) {
                Some(i) => Some(i as usize),
                None => None::<usize>,
            },
    ensures
        kl_views(r@) == known_list(ps, rows@, rh@.map_values(|o: Option<String>| opt_view(o)), rows.len() as int),
{
    let ghost rv = rh@.map_values(|o: Option<String>| opt_view(o));
    let mut l: Vec<(Vec<char>, usize, usize)> = Vec::new();
    let mut q: usize = 0;
    while q < rows.len()
        invariant
            q <= rows.len(),
            firsts.len() == rows.len(),
            rh.len() == rows.len(),
            rv == rh@.map_values(|o: Option<String>| opt_view(o)),
            ps.len() <= usize::MAX,
            forall|w: int|
                0 <= w < rows.len() ==> #[trigger] firsts@[w] == match first_match(ps, rows@[w], ps.len() as int) {
                    Some(i) => Some(i as usize),
                    None => None::<usize>,
                },
            kl_views(l@) == known_list(ps, rows@, rv, q as int),
        decreases rows.len() - q,
    {
        let ghost before = kl_views(l@);
        assert(rv[q as int] == opt_view(rh@[q as int]));
        proof {
            lemma_first_match(ps, rows@[q as int], ps.len() as int);
        }
        match (firsts[q], &rh[q]) {
            (Some(i), Some(h)) => {
                assert(first_match(ps, rows@[q as int], ps.len() as int) == Some(i as int));
                assert(rv[q as int] == Some(h@));
                let hc = text::chars_of(h.as_str());
                match pos_exec(&l, &hc) {
                    None => {
                        l.push((hc, i, q));
                        assert(kl_views(l@) =~= before.push((h@, i as int, q as int)));
                    },
                    Some(p) => {
                        proof {
                            lemma_pos_of(before, h@);
                        }
                        assert(before[p as int].1 == l[p as int].1 as int);
                        if i < l[p].1 {
                            l.set(p, (hc, i, q));
                            assert(kl_views(l@) =~= before.update(p as int, (h@, i as int, q as int)));
                        }
                    },
                }
            },
            _ => {
                proof {
                    if firsts@[q as int] is None {
                        assert(first_match(ps, rows@[q as int], ps.len() as int) is None);
                    } else {
                        assert(rv[q as int] is None);
                    }
                }
            },
        }
        q = q + 1;
    }
    l
}

/// The suspects with a hash, in suspect order, with their hash. `card` is the hash read for
/// each suspect, where it could be read.
pub open spec fn hashed_entries(sus: Seq<int>, card: Seq<Option<Seq<char>>>, k: int) -> Seq<(int, Seq<char>)>
    decreases k,
{
    if k <= 0 {
        seq![]
    } else {
        match card[k - 1] {
            Some(h) => hashed_entries(sus, card, k - 1).push((sus[k - 1], h)),
            None => hashed_entries(sus, card, k - 1),
        }
    }
}

/// Where `x` goes among `t`: before the first entry whose path lies deeper than its own, or as
/// deep and sorts after it.
pub open spec fn path_place(ps: Seq<Primary>, t: Seq<(int, Seq<char>)>, x: (int, Seq<char>)) -> int
    decreases t.len(),
{
    if t.len() == 0 {
        0
    } else if nearer(components(ps[x.0].path@), components(ps[t[0].0].path@)) {
        0
    } else {
        1 + path_place(ps, t.drop_first(), x)
    }
}

/// The entries ordered nearest the top of the tree first (fewest path components, then by
/// path); entries whose paths tie keep their order.
pub open spec fn by_path(ps: Seq<Primary>, es: Seq<(int, Seq<char>)>) -> Seq<(int, Seq<char>)>
    decreases es.len(),
{
    if es.len() == 0 {
        seq![]
    } else {
        let t = by_path(ps, es.drop_last());
        let p = path_place(ps, t, es.last());
        t.take(p).push(es.last()) + t.skip(p)
    }
}

/// Copies and catalog matches after the first `k` entries of `order`: the first entry with a
/// hash keeps it (it is imported), each later one with that hash becomes its copy; an entry
/// whose hash the catalog holds is known, with where.
pub open spec fn settle(
    ps: Seq<Primary>,
    rows: Seq<CatalogFile>,
    kl: Seq<(Seq<char>, int, int)>,
    order: Seq<(int, Seq<char>)>,
    k: int,
) -> (Seq<(Seq<char>, int, int)>, Map<u32, u32>, Map<u32, Seq<char>>)
    decreases k,
{
    if k <= 0 {
        (seq![], Map::empty(), Map::empty())
    } else {
        let (fs, cm, km) = settle(ps, rows, kl, order, k - 1);
        let (i, h) = order[k - 1];
        let (fs2, cm2) = match pos_of(fs, h) {
            Some(q) => (fs, cm.insert(ps[i].group, ps[fs[q].1].group)),
            None => (fs.push((h, i, 0)), cm),
        };
        let km2 = match known_path(rows, kl, h) {
            Some(p) => km.insert(ps[i].group, p),
            None => km,
        };
        (fs2, cm2, km2)
    }
}

/// The suspects, in increasing order.
fn suspect_list(shared: &Vec<bool>, in_cat: &Vec<bool>, Ghost(ps): Ghost<Seq<Primary>>, Ghost(rows): Ghost<Seq<CatalogFile>>) -> (r: Vec<usize>)
    requires
        shared.len() == ps.len(),
        in_cat.len() == ps.len(),
        forall|i: int|
            0 <= i < ps.len() ==> (#[trigger] shared@[i] <==> exists|j: int| 0 <= j < ps.len() && j != i && #[trigger] same_key(ps[j], ps[i])),
        forall|i: int|
            0 <= i < ps.len() ==> (#[trigger] in_cat@[i] <==> exists|q: int| 0 <= q < rows.len() && #[trigger] row_match(ps[i], rows[q])),
    ensures
        r@.map_values(|x: usize| x as int) == suspects(ps, rows, ps.len() as int),
{
    let mut out: Vec<usize> = Vec::new();
    let mut i: usize = 0;
    while i < shared.len()
        invariant
            i <= shared.len(),
            shared.len() == ps.len(),
            in_cat.len() == ps.len(),
            forall|k: int|
                0 <= k < ps.len() ==> (#[trigger] shared@[k] <==> exists|j: int| 0 <= j < ps.len() && j != k && #[trigger] same_key(ps[j], ps[k])),
            forall|k: int|
                0 <= k < ps.len() ==> (#[trigger] in_cat@[k] <==> exists|q: int| 0 <= q < rows.len() && #[trigger] row_match(ps[k], rows[q])),
            out@.map_values(|x: usize| x as int) == suspects(ps, rows, i as int),
        decreases shared.len() - i,
    {
        assert(shared@[i as int] || in_cat@[i as int] <==> suspect(ps, rows, i as int));
        if shared[i] || in_cat[i] {
            let ghost before = out@.map_values(|x: usize| x as int);
            out.push(i);
            assert(out@.map_values(|x: usize| x as int) =~= before.push(i as int));
        }
        i = i + 1;
    }
    out
}

pub open spec fn entry_views(v: Seq<(usize, Vec<char>)>) -> Seq<(int, Seq<char>)> {
    v.map_values(|e: (usize, Vec<char>)| (e.0 as int, e.1@))
}

pub open spec fn opt_views(v: Seq<Option<String>>) -> Seq<Option<Seq<char>>> {
    v.map_values(|o: Option<String>| opt_view(o))
}

/// The suspects whose hash was read, nearest the top of the tree first.
fn sorted_entries(
    ps: &Vec<Primary>,
    comps: &Vec<Vec<Vec<char>>>,
    sus: &Vec<usize>,
    card: &Vec<Option<String>>,
) -> (r: Vec<(usize, Vec<char>)>)
    requires
        comps.len() == ps.len(),
        forall|i: int| 0 <= i < ps.len() ==> comp_views((#[trigger] comps@[i])@) == components(ps@[i].path@),
        forall|k: int| 0 <= k < sus.len() ==> (#[trigger] sus@[k] as int) < ps.len(),
        card.len() == sus.len(),
    ensures
        entry_views(r@) == by_path(ps@, hashed_entries(sus@.map_values(|x: usize| x as int), opt_views(card@), sus.len() as int)),
        forall|k: int| 0 <= k < r.len() ==> ((#[trigger] r@[k]).0 as int) < ps.len(),
{
    let ghost sv = sus@.map_values(|x: usize| x as int);
    let ghost cv = opt_views(card@);
    let mut out: Vec<(usize, Vec<char>)> = Vec::new();
    let mut k: usize = 0;
    while k < sus.len()
        invariant
            k <= sus.len(),
            comps.len() == ps.len(),
            forall|i: int| 0 <= i < ps.len() ==> comp_views((#[trigger] comps@[i])@) == components(ps@[i].path@),
            forall|m: int| 0 <= m < sus.len() ==> (#[trigger] sus@[m] as int) < ps.len(),
            card.len() == sus.len(),
            sv == sus@.map_values(|x: usize| x as int),
            cv == opt_views(card@),
            entry_views(out@) == by_path(ps@, hashed_entries(sv, cv, k as int)),
            forall|m: int| 0 <= m < out.len() ==> ((#[trigger] out@[m]).0 as int) < ps.len(),
        decreases sus.len() - k,
    {
        assert(cv[k as int] == opt_view(card@[k as int]));
        match &card[k] {
            Some(h) => {
                let i = sus[k];
                let x = (i, text::chars_of(h.as_str()));
                let ghost xv = (i as int, h@);
                let ghost t = entry_views(out@);
                assert(hashed_entries(sv, cv, k + 1) == hashed_entries(sv, cv, k as int).push(xv));
                assert(hashed_entries(sv, cv, k + 1).drop_last() =~= hashed_entries(sv, cv, k as int));
                let mut p: usize = 0;
                assert(t.skip(0) =~= t);
                while p < out.len() && !nearer_exec(&comps[i], &comps[out[p].0])
                    invariant
                        p <= out.len(),
                        t == entry_views(out@),
                        xv.0 == i as int,
                        (i as int) < ps.len(),
                        comps.len() == ps.len(),
                        forall|j: int| 0 <= j < ps.len() ==> comp_views((#[trigger] comps@[j])@) == components(ps@[j].path@),
                        forall|m: int| 0 <= m < out.len() ==> ((#[trigger] out@[m]).0 as int) < ps.len(),
                        path_place(ps@, t, xv) == p + path_place(ps@, t.skip(p as int), xv),
                    decreases out.len() - p,
                {
                    assert(t.skip(p as int)[0] == t[p as int]);
                    assert(t[p as int].0 == out@[p as int].0 as int);
                    assert(comp_views(comps@[i as int]@) == components(ps@[i as int].path@));
                    assert(comp_views(comps@[out@[p as int].0 as int]@) == components(ps@[out@[p as int].0 as int].path@));
                    assert(t.skip(p as int).drop_first() =~= t.skip(p + 1));
                    p = p + 1;
                }
                proof {
                    if p < out.len() {
                        assert(t.skip(p as int)[0] == t[p as int]);
                        assert(t[p as int].0 == out@[p as int].0 as int);
                        assert(comp_views(comps@[i as int]@) == components(ps@[i as int].path@));
                        assert(comp_views(comps@[out@[p as int].0 as int]@) == components(ps@[out@[p as int].0 as int].path@));
                    }
                }
                out.insert(p, x);
                assert(entry_views(out@) =~= t.take(p as int).push(xv) + t.skip(p as int));
            },
            None => {},
        }
        k = k + 1;
    }
    out
}

/// Settle the ordered entries into copies and catalog matches.
fn settle_exec(
    ps: &Vec<Primary>,
    rows: &Vec<CatalogFile>,
    kl: &Vec<(Vec<char>, usize, usize)>,
    order: &Vec<(usize, Vec<char>)>,
) -> (r: (HashMap<u32, u32>, HashMap<u32, String>))
    requires
        forall|k: int| 0 <= k < order.len() ==> ((#[trigger] order@[k]).0 as int) < ps.len(),
        forall|q: int| 0 <= q < kl.len() ==> ((#[trigger] kl@[q]).2 as int) < rows.len(),
    ensures
        ({
            let (fs, cm, km) = settle(ps@, rows@, kl_views(kl@), entry_views(order@), order.len() as int);
            &&& r.0@ == cm
            &&& r.1@.dom() == km.dom()
            &&& forall|g: u32| #[trigger] km.contains_key(g) ==> r.1@[g]@ == km[g]
        }),
{
    broadcast use vstd::std_specs::hash::group_hash_axioms;
    let ghost ov = entry_views(order@);
    let ghost kv = kl_views(kl@);
    let mut fs: Vec<(Vec<char>, usize, usize)> = Vec::new();
    let mut copies: HashMap<u32, u32> = HashMap::new();
    let mut known: HashMap<u32, String> = HashMap::new();
    let mut k: usize = 0;
    assert(copies@ =~= Map::<u32, u32>::empty());
    assert(known@.dom() =~= Set::<u32>::empty());
    while k < order.len()
        invariant
            k <= order.len(),
            ov == entry_views(order@),
            kv == kl_views(kl@),
            forall|m: int| 0 <= m < order.len() ==> ((#[trigger] order@[m]).0 as int) < ps.len(),
            forall|q: int| 0 <= q < kl.len() ==> ((#[trigger] kl@[q]).2 as int) < rows.len(),
            forall|q: int| 0 <= q < fs.len() ==> ((#[trigger] fs@[q]).1 as int) < ps.len(),
            ({
                let (f, cm, km) = settle(ps@, rows@, kv, ov, k as int);
                &&& kl_views(fs@) == f
                &&& copies@ == cm
                &&& known@.dom() == km.dom()
                &&& forall|g: u32| #[trigger] km.contains_key(g) ==> known@[g]@ == km[g]
            }),
        decreases order.len() - k,
    {
        let ghost (f0, cm0, km0) = settle(ps@, rows@, kv, ov, k as int);
        let i = order[k].0;
        let h = &order[k].1;
        assert(ov[k as int] == (i as int, h@));
        let g = ps[i].group;
        match pos_exec(&fs, h) {
            Some(q) => {
                proof {
                    lemma_pos_of(f0, h@);
                }
                let first = fs[q].1;
                copies.insert(g, ps[first].group);
            },
            None => {
                let ghost before = kl_views(fs@);
                fs.push((h.clone(), i, 0));
                assert(kl_views(fs@) =~= before.push((h@, i as int, 0)));
            },
        }
        match pos_exec(kl, h) {
            Some(q) => {
                proof {
                    lemma_pos_of(kv, h@);
                }
                let row = kl[q].2;
                let path = text::string_of(&text::chars_of(rows[row].path.as_str()));
                let ghost before = known@;
                known.insert(g, path);
                proof {
                    let km1 = settle(ps@, rows@, kv, ov, k + 1).2;
                    assert(km1 == km0.insert(g, rows@[row as int].path@));
                    assert(known@.dom() =~= km1.dom());
                    assert forall|g2: u32| #[trigger] km1.contains_key(g2) implies known@[g2]@ == km1[g2] by {
                        if g2 != g {
                            assert(known@[g2] == before[g2]);
                        }
                    }
                }
            },
            None => {},
        }
        k = k + 1;
    }
    (copies, known)
}

/// `r` is what the duplicate check makes of primaries `ps`, catalog files `rows`, the hashes
/// read for the suspects and the hashes of the catalog files.
pub open spec fn found(
    r: ImportDupes,
    ps: Seq<Primary>,
    rows: Seq<CatalogFile>,
    card: Seq<Option<Seq<char>>>,
    rh: Seq<Option<Seq<char>>>,
) -> bool {
    let sus = suspects(ps, rows, ps.len() as int);
    let order = by_path(ps, hashed_entries(sus, card, sus.len() as int));
    let kl = known_list(ps, rows, rh, rows.len() as int);
    let (fs, cm, km0) = settle(ps, rows, kl, order, order.len() as int);
    let km = with_mtime_known(ps, rows, km0, ps.len() as int);
    &&& r.hashed == sus.len()
    &&& r.copies@ == cm
    &&& r.known@.dom() == km.dom()
    &&& forall|g: u32| #[trigger] km.contains_key(g) ==> r.known@[g]@ == km[g]
}

/// The suspects, in increasing order, and each catalog file's first matching primary.
fn suspects_of(ps: &Vec<Primary>, rows: &Vec<CatalogFile>) -> (r: (Vec<usize>, Vec<Option<usize>>))
    ensures
        r.0@.map_values(|x: usize| x as int) == suspects(ps@, rows@, ps.len() as int),
        forall|k: int| 0 <= k < r.0.len() ==> (#[trigger] r.0@[k] as int) < ps.len(),
        r.1.len() == rows.len(),
        forall|q: int|
            0 <= q < rows.len() ==> #[trigger] r.1@[q] == match first_match(ps@, rows@[q], ps.len() as int) {
                Some(i) => Some(i as usize),
                None => None::<usize>,
            },
{
    let names = name_chars(ps);
    let idx = index_of(&names);
    let shared = shared_in_scan(ps, &names, &idx);
    let (in_cat, firsts) = catalog_pass(ps, rows, &names, &idx);
    let sus = suspect_list(&shared, &in_cat, Ghost(ps@), Ghost(rows@));
    proof {
        lemma_suspects_bound(ps@, rows@, ps.len() as int);
        assert forall|k: int| 0 <= k < sus.len() implies (#[trigger] sus@[k] as int) < ps.len() by {
            assert(sus@.map_values(|x: usize| x as int)[k] == sus@[k] as int);
        }
    }
    (sus, firsts)
}

/// The first catalog file that primary `p`'s name, size and modification time match.
fn first_mtime_row_exec(p: &Primary, rows: &Vec<CatalogFile>) -> (r: Option<usize>)
    ensures
        match r {
            Some(q) => first_mtime_row(*p, rows@, rows.len() as int) == Some(q as int) && (q as int) < rows.len(),
            None => first_mtime_row(*p, rows@, rows.len() as int) is None,
        },
{
    if p.mtime.is_none() {
        proof {
            lemma_no_mtime_row(*p, rows@, rows.len() as int);
        }
        return None;
    }
    let pn = text::chars_of(p.name.as_str());
    let mut q: usize = 0;
    while q < rows.len()
        invariant
            q <= rows.len(),
            pn@ == p.name@,
            first_mtime_row(*p, rows@, q as int) is None,
        decreases rows.len() - q,
    {
        let row = &rows[q];
        if row.size == p.size as i64 && same_mtime_exec(p, row) && text::eq_chars(&text::chars_of(row.name.as_str()), &pn) {
            proof {
                lemma_first_mtime_row_from(*p, rows@, q + 1, rows.len() as int);
            }
            return Some(q);
        }
        q = q + 1;
    }
    None
}

proof fn lemma_no_mtime_row(p: Primary, rows: Seq<CatalogFile>, m: int)
    requires
        p.mtime is None,
    ensures
        first_mtime_row(p, rows, m) is None,
    decreases m,
{
    if m > 0 {
        lemma_no_mtime_row(p, rows, m - 1);
    }
}

proof fn lemma_first_mtime_row_from(p: Primary, rows: Seq<CatalogFile>, k: int, m: int)
    requires
        0 < k <= m,
        first_mtime_row(p, rows, k) is Some,
    ensures
        first_mtime_row(p, rows, m) == first_mtime_row(p, rows, k),
    decreases m - k,
{
    if m > k {
        lemma_first_mtime_row_from(p, rows, k, m - 1);
    }
}

/// `known` with, for each primary that a catalog file matches by name, size and
/// modification time, the path of the first such file.
fn add_mtime_known(ps: &Vec<Primary>, rows: &Vec<CatalogFile>, known: HashMap<u32, String>, Ghost(km): Ghost<Map<u32, Seq<char>>>) -> (r: HashMap<u32, String>)
    requires
        known@.dom() == km.dom(),
        forall|g: u32| #[trigger] km.contains_key(g) ==> known@[g]@ == km[g],
    ensures
        ({
            let km2 = with_mtime_known(ps@, rows@, km, ps.len() as int);
            &&& r@.dom() == km2.dom()
            &&& forall|g: u32| #[trigger] km2.contains_key(g) ==> r@[g]@ == km2[g]
        }),
{
    broadcast use vstd::std_specs::hash::group_hash_axioms;
    let mut known = known;
    let mut i: usize = 0;
    while i < ps.len()
        invariant
            i <= ps.len(),
            known@.dom() == with_mtime_known(ps@, rows@, km, i as int).dom(),
            forall|g: u32| #[trigger] with_mtime_known(ps@, rows@, km, i as int).contains_key(g) ==> known@[g]@
                == with_mtime_known(ps@, rows@, km, i as int)[g],
        decreases ps.len() - i,
    {
        let ghost m0 = with_mtime_known(ps@, rows@, km, i as int);
        match first_mtime_row_exec(&ps[i], rows) {
            Some(q) => {
                let g = ps[i].group;
                let path = text::string_of(&text::chars_of(rows[q].path.as_str()));
                let ghost before = known@;
                known.insert(g, path);
                proof {
                    let m1 = with_mtime_known(ps@, rows@, km, i + 1);
                    assert(m1 == m0.insert(g, rows@[q as int].path@));
                    assert(known@.dom() =~= m1.dom());
                    assert forall|g2: u32| #[trigger] m1.contains_key(g2) implies known@[g2]@ == m1[g2] by {
                        if g2 != g {
                            assert(known@[g2] == before[g2]);
                        }
                    }
                }
            },
            None => {
                assert(with_mtime_known(ps@, rows@, km, i + 1) == m0);
            },
        }
        i = i + 1;
    }
    known
}

/// The duplicates of an import, from its primaries, the catalog files still on disk, the
/// hash read for each suspect (in suspect order; `None` where it could not be read) and the
/// hash of each catalog file (`None` where there is none and it could not be read).
pub fn find_with(
    ps: &Vec<Primary>,
    rows: &Vec<CatalogFile>,
    card: &Vec<Option<String>>,
    rh: &Vec<Option<String>>,
) -> (r: ImportDupes)
    requires
        card.len() == suspects(ps@, rows@, ps.len() as int).len(),
        rh.len() == rows.len(),
    ensures
        found(r, ps@, rows@, opt_views(card@), opt_views(rh@)),
{
    let (sus, firsts) = suspects_of(ps, rows);
    let mut comps: Vec<Vec<Vec<char>>> = Vec::new();
    let mut i: usize = 0;
    while i < ps.len()
        invariant
            i <= ps.len(),
            comps.len() == i,
            forall|j: int| 0 <= j < i ==> comp_views((#[trigger] comps@[j])@) == components(ps@[j].path@),
        decreases ps.len() - i,
    {
        comps.push(path_components(ps[i].path.as_str()));
        i = i + 1;
    }
    let order = sorted_entries(ps, &comps, &sus, card);
    let kl = known_exec(rows, &firsts, rh, Ghost(ps@));
    proof {
        lemma_known_list_rows(ps@, rows@, opt_views(rh@), rows.len() as int);
        assert forall|q: int| 0 <= q < kl.len() implies ((#[trigger] kl@[q]).2 as int) < rows.len() by {
            assert(kl_views(kl@)[q].2 == kl@[q].2 as int);
        }
    }
    let (copies, known) = settle_exec(ps, rows, &kl, &order);
    let known = add_mtime_known(ps, rows, known, Ghost(settle(ps@, rows@, kl_views(kl@), entry_views(order@), order.len() as int).2));
    ImportDupes { copies, known, hashed: sus.len() }
}

proof fn lemma_suspects_bound(ps: Seq<Primary>, rows: Seq<CatalogFile>, k: int)
    requires
        0 <= k,
    ensures
        suspects(ps, rows, k).len() <= k,
        forall|m: int| 0 <= m < suspects(ps, rows, k).len() ==> 0 <= #[trigger] suspects(ps, rows, k)[m] < k,
    decreases k,
{
    if k > 0 {
        lemma_suspects_bound(ps, rows, k - 1);
    }
}

proof fn lemma_known_list_rows(ps: Seq<Primary>, rows: Seq<CatalogFile>, rh: Seq<Option<Seq<char>>>, m: int)
    requires
        0 <= m <= rows.len(),
    ensures
        forall|q: int| 0 <= q < known_list(ps, rows, rh, m).len() ==> 0 <= #[trigger] known_list(ps, rows, rh, m)[q].2 < m,
    decreases m,
{
    if m > 0 {
        lemma_known_list_rows(ps, rows, rh, m - 1);
        let l = known_list(ps, rows, rh, m - 1);
        if let Some(h) = rh[m - 1] {
            lemma_pos_of(l, h);
        }
    }
}

/// `o` is an answer `f` can give for a path that reads `p`.
pub open spec fn answered<H: Fn(&str) -> Option<String>>(f: H, p: Seq<char>, o: Option<String>) -> bool {
    exists|s: &str| s@ == p && #[trigger] call_ensures(f, (s,), o)
}

/// The hash used for catalog file `row`: the recorded one; else, for a file that matches a
/// primary, what `f` read; else none.
pub open spec fn row_hash_ok<H: Fn(&str) -> Option<String>>(f: H, ps: Seq<Primary>, row: CatalogFile, o: Option<String>) -> bool {
    match row.blake3 {
        Some(h) => opt_view(o) == Some(h@),
        None => if first_match(ps, row, ps.len() as int) is Some {
            answered(f, row.path@, o)
        } else {
            o is None
        },
    }
}

/// `ps` are the primaries of `scan`, in group order.
pub open spec fn primaries_of(scan: Scan, ps: Seq<Primary>) -> bool {
    &&& ps.len() == scan.groups.len()
    &&& forall|i: int|
        0 <= i < ps.len() ==> {
            let f = scan.files@[scan.groups@[i].primary.0 as int];
            &&& (#[trigger] ps[i]).group == scan.groups@[i].id.0
            &&& ps[i].path@ == f.path@
            &&& ps[i].size == f.size
            &&& ps[i].name@ == file_name(f.path@)
            &&& ps[i].mtime == f.mtime
        }
}

/// Look for copies within `scan`, and for photos the catalog already holds. `catalog` is
/// the catalog's files still on disk (empty without a catalog); `hash` reads the BLAKE3 of
/// the file at a path, `None` where it cannot. Only the suspects, and the catalog files that
/// match one by name and size but not by modification time and have no recorded hash, are
/// read, each once; a catalog file that matches a photo's name, size and modification time
/// marks it as held without reading either.
pub fn find<H: Fn(&str) -> Option<String>>(scan: &Scan, catalog: &Vec<CatalogFile>, hash: &H) -> (r: ImportDupes)
    requires
        scan_wf(*scan),
        forall|p: &str| #[trigger] call_requires(*hash, (p,)),
    ensures
        exists|ps: Seq<Primary>, card: Seq<Option<String>>, rh: Seq<Option<String>>|
            #![trigger found(r, ps, catalog@, opt_views(card), opt_views(rh))]
            {
                let sus = suspects(ps, catalog@, ps.len() as int);
                &&& primaries_of(*scan, ps)
                &&& card.len() == sus.len()
                &&& forall|k: int| 0 <= k < card.len() ==> #[trigger] answered(*hash, ps[sus[k]].path@, card[k])
                &&& rh.len() == catalog.len()
                &&& forall|q: int| 0 <= q < rh.len() ==> #[trigger] row_hash_ok(*hash, ps, catalog@[q], rh[q])
                &&& found(r, ps, catalog@, opt_views(card), opt_views(rh))
            },
{
    let ps = primaries(scan);
    let (sus, firsts) = suspects_of(&ps, catalog);
    let ghost sv = sus@.map_values(|x: usize| x as int);
    let mut card: Vec<Option<String>> = Vec::new();
    let mut k: usize = 0;
    while k < sus.len()
        invariant
            k <= sus.len(),
            sv == sus@.map_values(|x: usize| x as int),
            forall|m: int| 0 <= m < sus.len() ==> (#[trigger] sus@[m] as int) < ps.len(),
            forall|p: &str| #[trigger] call_requires(*hash, (p,)),
            card.len() == k,
            forall|m: int| 0 <= m < k ==> #[trigger] answered(*hash, ps@[sv[m]].path@, card@[m]),
        decreases sus.len() - k,
    {
        let p = ps[sus[k]].path.as_str();
        let o = hash(p);
        assert(sv[k as int] == sus@[k as int] as int);
        assert(answered(*hash, ps@[sv[k as int]].path@, o));
        card.push(o);
        k = k + 1;
    }
    let mut rh: Vec<Option<String>> = Vec::new();
    let mut q: usize = 0;
    while q < catalog.len()
        invariant
            q <= catalog.len(),
            firsts.len() == catalog.len(),
            forall|w: int|
                0 <= w < catalog.len() ==> #[trigger] firsts@[w] == match first_match(ps@, catalog@[w], ps.len() as int) {
                    Some(i) => Some(i as usize),
                    None => None::<usize>,
                },
            forall|p: &str| #[trigger] call_requires(*hash, (p,)),
            rh.len() == q,
            forall|w: int| 0 <= w < q ==> #[trigger] row_hash_ok(*hash, ps@, catalog@[w], rh@[w]),
        decreases catalog.len() - q,
    {
        let row = &catalog[q];
        let o = match &row.blake3 {
            Some(h) => {
                let c = h.clone();
                assert(c@ == h@);
                Some(c)
            },
            None => if firsts[q].is_some() {
                let o = hash(row.path.as_str());
                assert(answered(*hash, catalog@[q as int].path@, o));
                o
            } else {
                None
            },
        };
        proof {
            lemma_first_match(ps@, catalog@[q as int], ps.len() as int);
        }
        assert(row_hash_ok(*hash, ps@, catalog@[q as int], o));
        rh.push(o);
        q = q + 1;
    }
    let r = find_with(&ps, catalog, &card, &rh);
    assert(primaries_of(*scan, ps@));
    r
}

/// The path components of entry `e`'s primary.
pub open spec fn key_of(ps: Seq<Primary>, e: (int, Seq<char>)) -> Seq<Seq<char>> {
    components(ps[e.0].path@)
}

proof fn lemma_path_place(ps: Seq<Primary>, t: Seq<(int, Seq<char>)>, x: (int, Seq<char>))
    ensures
        0 <= path_place(ps, t, x) <= t.len(),
        forall|a: int| 0 <= a < path_place(ps, t, x) ==> !nearer(key_of(ps, x), key_of(ps, #[trigger] t[a])),
        path_place(ps, t, x) < t.len() ==> nearer(key_of(ps, x), key_of(ps, t[path_place(ps, t, x)])),
    decreases t.len(),
{
    if t.len() > 0 && !nearer(key_of(ps, x), key_of(ps, t[0])) {
        lemma_path_place(ps, t.drop_first(), x);
        assert forall|a: int| 0 <= a < path_place(ps, t, x) implies !nearer(key_of(ps, x), key_of(ps, #[trigger] t[a])) by {
            if a > 0 {
                assert(t[a] == t.drop_first()[a - 1]);
            }
        }
        if path_place(ps, t, x) < t.len() {
            assert(t[path_place(ps, t, x)] == t.drop_first()[path_place(ps, t, x) - 1]);
        }
    }
}

/// Entries of `es` have different primaries.
pub open spec fn distinct_primaries(es: Seq<(int, Seq<char>)>) -> bool {
    forall|a: int, b: int| 0 <= a < es.len() && 0 <= b < es.len() && a != b ==> (#[trigger] es[a]).0 != (#[trigger] es[b]).0
}

/// Ordering nearest the top first keeps the entries, and puts no entry after one that lies
/// deeper, or as deep and later by path.
proof fn lemma_by_path(ps: Seq<Primary>, es: Seq<(int, Seq<char>)>)
    ensures
        by_path(ps, es).len() == es.len(),
        forall|a: int| 0 <= a < es.len() ==> exists|m: int| 0 <= m < es.len() && #[trigger] by_path(ps, es)[a] == es[m],
        distinct_primaries(es) ==> distinct_primaries(by_path(ps, es)),
        forall|a: int, b: int|
            0 <= a < b < es.len() ==> !nearer(key_of(ps, #[trigger] by_path(ps, es)[b]), key_of(ps, #[trigger] by_path(ps, es)[a])),
    decreases es.len(),
{
    if es.len() > 0 {
        let pre = es.drop_last();
        let x = es.last();
        let t = by_path(ps, pre);
        lemma_by_path(ps, pre);
        lemma_path_place(ps, t, x);
        let p = path_place(ps, t, x);
        let r = by_path(ps, es);
        assert(r == t.take(p).push(x) + t.skip(p));
        assert(r.len() == es.len());
        assert forall|a: int| 0 <= a < r.len() implies (a < p ==> r[a] == t[a]) && (a == p ==> r[a] == x) && (a > p ==> r[a] == t[a - 1]) by {}
        assert forall|a: int| 0 <= a < es.len() implies exists|m: int| 0 <= m < es.len() && #[trigger] r[a] == es[m] by {
            if a == p {
                assert(r[a] == es[es.len() - 1]);
            } else {
                let ta = if a < p { a } else { a - 1 };
                let m = choose|m: int| 0 <= m < pre.len() && #[trigger] t[ta] == pre[m];
                assert(r[a] == es[m]);
            }
        }
        if distinct_primaries(es) {
            assert(distinct_primaries(pre)) by {
                assert forall|a: int, b: int| 0 <= a < pre.len() && 0 <= b < pre.len() && a != b implies (#[trigger] pre[a]).0 != (#[trigger] pre[b]).0 by {
                    assert(pre[a] == es[a] && pre[b] == es[b]);
                }
            }
            assert forall|a: int| 0 <= a < t.len() implies (#[trigger] t[a]).0 != x.0 by {
                let m = choose|m: int| 0 <= m < pre.len() && #[trigger] t[a] == pre[m];
                assert(pre[m] == es[m]);
                assert(es[m].0 != es[es.len() - 1].0);
            }
            assert forall|a: int, b: int| 0 <= a < r.len() && 0 <= b < r.len() && a != b implies (#[trigger] r[a]).0 != (#[trigger] r[b]).0 by {
                if a != p && b != p {
                    let ta = if a < p { a } else { a - 1 };
                    let tb = if b < p { b } else { b - 1 };
                    assert(ta != tb);
                }
            }
        }
        assert forall|a: int, b: int| 0 <= a < b < es.len() implies !nearer(key_of(ps, #[trigger] r[b]), key_of(ps, #[trigger] r[a])) by {
            if b < p {
            } else if b == p {
                assert(!nearer(key_of(ps, x), key_of(ps, t[a])));
            } else if a < p {
                assert(r[a] == t[a] && r[b] == t[b - 1]);
            } else if a == p {
                if nearer(key_of(ps, t[b - 1]), key_of(ps, x)) {
                    lemma_nearer_trans(key_of(ps, t[b - 1]), key_of(ps, x), key_of(ps, t[p]));
                    if b - 1 == p {
                        lemma_nearer_irrefl(key_of(ps, t[p]));
                    }
                }
            }
        }
    }
}

proof fn lemma_suspects_increase(ps: Seq<Primary>, rows: Seq<CatalogFile>, k: int)
    requires
        0 <= k,
    ensures
        forall|a: int, b: int|
            0 <= a < b < suspects(ps, rows, k).len() ==> #[trigger] suspects(ps, rows, k)[a] < #[trigger] suspects(ps, rows, k)[b],
    decreases k,
{
    if k > 0 {
        lemma_suspects_increase(ps, rows, k - 1);
        lemma_suspects_bound(ps, rows, k - 1);
    }
}

/// `i` is one of the first `k` of `sus`.
pub open spec fn from_first(sus: Seq<int>, k: int, i: int) -> bool {
    exists|m: int| 0 <= m < k && sus[m] == i
}

proof fn lemma_hashed_entries(sus: Seq<int>, card: Seq<Option<Seq<char>>>, k: int, n: int)
    requires
        0 <= k <= sus.len(),
        forall|a: int, b: int| 0 <= a < b < sus.len() ==> #[trigger] sus[a] < #[trigger] sus[b],
        forall|a: int| 0 <= a < sus.len() ==> 0 <= #[trigger] sus[a] < n,
    ensures
        distinct_primaries(hashed_entries(sus, card, k)),
        forall|a: int| 0 <= a < hashed_entries(sus, card, k).len() ==> 0 <= (#[trigger] hashed_entries(sus, card, k)[a]).0 < n,
        forall|a: int| 0 <= a < hashed_entries(sus, card, k).len() ==> from_first(sus, k, (#[trigger] hashed_entries(sus, card, k)[a]).0),
    decreases k,
{
    if k > 0 {
        lemma_hashed_entries(sus, card, k - 1, n);
        let e = hashed_entries(sus, card, k - 1);
        if let Some(h) = card[k - 1] {
            let e2 = e.push((sus[k - 1], h));
            assert forall|a: int| 0 <= a < e.len() implies (#[trigger] e[a]).0 < sus[k - 1] by {
                assert(from_first(sus, k - 1, e[a].0));
                let m = choose|m: int| 0 <= m < k - 1 && sus[m] == e[a].0;
            }
            assert forall|a: int, b: int| 0 <= a < e2.len() && 0 <= b < e2.len() && a != b implies (#[trigger] e2[a]).0 != (#[trigger] e2[b]).0 by {
                if a < e.len() && b < e.len() {
                    assert(e2[a] == e[a] && e2[b] == e[b]);
                } else if a < e.len() {
                    assert(e2[a] == e[a]);
                } else if b < e.len() {
                    assert(e2[b] == e[b]);
                }
            }
            assert(hashed_entries(sus, card, k) == e2);
            assert forall|a: int| 0 <= a < e2.len() implies from_first(sus, k, (#[trigger] e2[a]).0) by {
                if a < e.len() {
                    assert(e2[a] == e[a]);
                    assert(from_first(sus, k - 1, e[a].0));
                    let m = choose|m: int| 0 <= m < k - 1 && sus[m] == e[a].0;
                    assert(0 <= m < k && sus[m] == e2[a].0);
                } else {
                    assert(e2[a].0 == sus[k - 1]);
                }
            }
        } else {
            assert(hashed_entries(sus, card, k) == e);
            assert forall|a: int| 0 <= a < e.len() implies from_first(sus, k, (#[trigger] e[a]).0) by {
                assert(from_first(sus, k - 1, e[a].0));
                let m = choose|m: int| 0 <= m < k - 1 && sus[m] == e[a].0;
                assert(0 <= m < k && sus[m] == e[a].0);
            }
        }
    }
}

/// Every copy's original came earlier in `order`, has the copy's hash, and is nobody's copy.
pub open spec fn settle_ok(ps: Seq<Primary>, order: Seq<(int, Seq<char>)>, fs: Seq<(Seq<char>, int, int)>, cm: Map<u32, u32>, k: int) -> bool {
    &&& forall|q: int|
        0 <= q < fs.len() ==> exists|m: int| 0 <= m < k && (#[trigger] fs[q]).1 == order[m].0 && fs[q].0 == order[m].1
    &&& forall|g: u32|
        #[trigger] cm.contains_key(g) ==> exists|m: int, m2: int|
            0 <= m2 < m < k && ps[order[m].0].group == g && cm[g] == ps[order[m2].0].group && order[m].1 == order[m2].1
                && (forall|q: int| 0 <= q < fs.len() ==> (#[trigger] fs[q]).1 != order[m].0) && (exists|q: int|
                0 <= q < fs.len() && #[trigger] fs[q].1 == order[m2].0)
}

proof fn lemma_settle(ps: Seq<Primary>, rows: Seq<CatalogFile>, kl: Seq<(Seq<char>, int, int)>, order: Seq<(int, Seq<char>)>, k: int)
    requires
        0 <= k <= order.len(),
        distinct_primaries(order),
        forall|a: int| 0 <= a < order.len() ==> 0 <= (#[trigger] order[a]).0 < ps.len(),
        forall|i: int, j: int| 0 <= i < ps.len() && 0 <= j < ps.len() && i != j ==> (#[trigger] ps[i]).group != (#[trigger] ps[j]).group,
    ensures
        settle_ok(ps, order, settle(ps, rows, kl, order, k).0, settle(ps, rows, kl, order, k).1, k),
    decreases k,
{
    if k > 0 {
        lemma_settle(ps, rows, kl, order, k - 1);
        let (fs, cm, km) = settle(ps, rows, kl, order, k - 1);
        let (i, h) = order[k - 1];
        let gi = ps[i].group;
        lemma_pos_of(fs, h);
        // The current entry is none of the earlier ones.
        assert forall|q: int| 0 <= q < fs.len() implies (#[trigger] fs[q]).1 != i by {
            let m = choose|m: int| 0 <= m < k - 1 && (#[trigger] fs[q]).1 == order[m].0 && fs[q].0 == order[m].1;
            assert(order[m].0 != order[k - 1].0);
        }
        match pos_of(fs, h) {
            Some(q) => {
                let cm2 = cm.insert(gi, ps[fs[q].1].group);
                let m2 = choose|m: int| 0 <= m < k - 1 && (#[trigger] fs[q]).1 == order[m].0 && fs[q].0 == order[m].1;
                assert forall|g: u32| #[trigger] cm2.contains_key(g) implies exists|m: int, m3: int|
                    0 <= m3 < m < k && ps[order[m].0].group == g && cm2[g] == ps[order[m3].0].group && order[m].1 == order[m3].1
                        && (forall|q2: int| 0 <= q2 < fs.len() ==> (#[trigger] fs[q2]).1 != order[m].0) && (exists|q2: int|
                        0 <= q2 < fs.len() && #[trigger] fs[q2].1 == order[m3].0) by {
                    if g == gi {
                        assert(0 <= m2 < k - 1 && ps[order[k - 1].0].group == g && cm2[g] == ps[order[m2].0].group);
                        assert(fs[q].1 == order[m2].0);
                    } else {
                        assert(cm.contains_key(g));
                        let (m, m3) = choose|m: int, m3: int|
                            0 <= m3 < m < k - 1 && ps[order[m].0].group == g && cm[g] == ps[order[m3].0].group && order[m].1
                                == order[m3].1 && (forall|q2: int| 0 <= q2 < fs.len() ==> (#[trigger] fs[q2]).1 != order[m].0) && (
                            exists|q2: int| 0 <= q2 < fs.len() && #[trigger] fs[q2].1 == order[m3].0);
                        assert(cm2[g] == cm[g]);
                    }
                }
            },
            None => {
                let fs2 = fs.push((h, i, 0));
                assert forall|q: int| 0 <= q < fs2.len() implies exists|m: int|
                    0 <= m < k && (#[trigger] fs2[q]).1 == order[m].0 && fs2[q].0 == order[m].1 by {
                    if q < fs.len() {
                        assert(fs2[q] == fs[q]);
                        let m = choose|m: int| 0 <= m < k - 1 && (#[trigger] fs[q]).1 == order[m].0 && fs[q].0 == order[m].1;
                    } else {
                        assert(fs2[q].1 == order[k - 1].0);
                    }
                }
                assert forall|g: u32| #[trigger] cm.contains_key(g) implies exists|m: int, m3: int|
                    0 <= m3 < m < k && ps[order[m].0].group == g && cm[g] == ps[order[m3].0].group && order[m].1 == order[m3].1
                        && (forall|q2: int| 0 <= q2 < fs2.len() ==> (#[trigger] fs2[q2]).1 != order[m].0) && (exists|q2: int|
                        0 <= q2 < fs2.len() && #[trigger] fs2[q2].1 == order[m3].0) by {
                    let (m, m3) = choose|m: int, m3: int|
                        0 <= m3 < m < k - 1 && ps[order[m].0].group == g && cm[g] == ps[order[m3].0].group && order[m].1
                            == order[m3].1 && (forall|q2: int| 0 <= q2 < fs.len() ==> (#[trigger] fs[q2]).1 != order[m].0) && (
                        exists|q2: int| 0 <= q2 < fs.len() && #[trigger] fs[q2].1 == order[m3].0);
                    let q3 = choose|q2: int| 0 <= q2 < fs.len() && #[trigger] fs[q2].1 == order[m3].0;
                    assert(fs2[q3] == fs[q3]);
                    assert forall|q2: int| 0 <= q2 < fs2.len() implies (#[trigger] fs2[q2]).1 != order[m].0 by {
                        if q2 < fs.len() {
                            assert(fs2[q2] == fs[q2]);
                        } else {
                            assert(order[m].0 != order[k - 1].0);
                        }
                    }
                }
            },
        }
    }
}

/// The order in which suspects with a hash are settled: nearest the top of the tree first.
pub open spec fn settle_order(ps: Seq<Primary>, rows: Seq<CatalogFile>, card: Seq<Option<Seq<char>>>) -> Seq<(int, Seq<char>)> {
    let sus = suspects(ps, rows, ps.len() as int);
    by_path(ps, hashed_entries(sus, card, sus.len() as int))
}

/// The copies an import marks: each copy points at a photo with the same bytes (the same hash
/// was read for both) whose path lies no deeper than the copy's (and, as deep, sorts no later),
/// and that photo is imported,
/// not itself marked as a copy. Holds when the groups have distinct ids, as a scan's do.
pub proof fn lemma_copies_point_at_kept(ps: Seq<Primary>, rows: Seq<CatalogFile>, card: Seq<Option<Seq<char>>>, rh: Seq<Option<Seq<char>>>)
    requires
        forall|i: int, j: int| 0 <= i < ps.len() && 0 <= j < ps.len() && i != j ==> (#[trigger] ps[i]).group != (#[trigger] ps[j]).group,
        card.len() == suspects(ps, rows, ps.len() as int).len(),
    ensures
        ({
            let order = settle_order(ps, rows, card);
            let kl = known_list(ps, rows, rh, rows.len() as int);
            let cm = settle(ps, rows, kl, order, order.len() as int).1;
            &&& forall|g: u32| #[trigger] cm.contains_key(g) ==> !cm.contains_key(cm[g])
            &&& forall|g: u32|
                #[trigger] cm.contains_key(g) ==> exists|m: int, m2: int|
                    0 <= m2 < m < order.len() && ps[order[m].0].group == g && ps[order[m2].0].group == cm[g] && order[m].1
                        == order[m2].1 && order[m].0 != order[m2].0 && !nearer(
                        components(ps[order[m].0].path@),
                        components(ps[order[m2].0].path@),
                    )
        }),
{
    let n = ps.len() as int;
    let sus = suspects(ps, rows, n);
    lemma_suspects_bound(ps, rows, n);
    lemma_suspects_increase(ps, rows, n);
    lemma_hashed_entries(sus, card, sus.len() as int, n);
    let es = hashed_entries(sus, card, sus.len() as int);
    lemma_by_path(ps, es);
    let order = by_path(ps, es);
    assert forall|a: int| 0 <= a < order.len() implies 0 <= (#[trigger] order[a]).0 < ps.len() by {
        let m = choose|m: int| 0 <= m < es.len() && #[trigger] order[a] == es[m];
    }
    let kl = known_list(ps, rows, rh, rows.len() as int);
    lemma_settle(ps, rows, kl, order, order.len() as int);
    let (fs, cm, km) = settle(ps, rows, kl, order, order.len() as int);
    assert forall|g: u32| #[trigger] cm.contains_key(g) implies !cm.contains_key(cm[g]) by {
        let (m, m2) = choose|m: int, m2: int|
            0 <= m2 < m < order.len() && ps[order[m].0].group == g && cm[g] == ps[order[m2].0].group && order[m].1 == order[m2].1
                && (forall|q: int| 0 <= q < fs.len() ==> (#[trigger] fs[q]).1 != order[m].0) && (exists|q: int|
                0 <= q < fs.len() && #[trigger] fs[q].1 == order[m2].0);
        let q = choose|q: int| 0 <= q < fs.len() && #[trigger] fs[q].1 == order[m2].0;
        if cm.contains_key(cm[g]) {
            let (m3, m4) = choose|m3: int, m4: int|
                0 <= m4 < m3 < order.len() && ps[order[m3].0].group == cm[g] && cm[cm[g]] == ps[order[m4].0].group
                    && order[m3].1 == order[m4].1 && (forall|q2: int| 0 <= q2 < fs.len() ==> (#[trigger] fs[q2]).1 != order[m3].0)
                    && (exists|q2: int| 0 <= q2 < fs.len() && #[trigger] fs[q2].1 == order[m4].0);
            assert(ps[order[m3].0].group == ps[order[m2].0].group);
            assert(order[m3].0 == order[m2].0);
            assert(fs[q].1 != order[m3].0);
        }
    }
    assert forall|g: u32| #[trigger] cm.contains_key(g) implies exists|m: int, m2: int|
        0 <= m2 < m < order.len() && ps[order[m].0].group == g && ps[order[m2].0].group == cm[g] && order[m].1 == order[m2].1
            && order[m].0 != order[m2].0 && !nearer(components(ps[order[m].0].path@), components(ps[order[m2].0].path@)) by {
        let (m, m2) = choose|m: int, m2: int|
            0 <= m2 < m < order.len() && ps[order[m].0].group == g && cm[g] == ps[order[m2].0].group && order[m].1 == order[m2].1
                && (forall|q: int| 0 <= q < fs.len() ==> (#[trigger] fs[q]).1 != order[m].0) && (exists|q: int|
                0 <= q < fs.len() && #[trigger] fs[q].1 == order[m2].0);
        assert(!nearer(key_of(ps, order[m]), key_of(ps, order[m2])));
    }
}


proof fn lemma_no_suspects(ps: Seq<Primary>, rows: Seq<CatalogFile>, k: int)
    requires
        k <= ps.len(),
        forall|i: int| 0 <= i < ps.len() ==> !#[trigger] suspect(ps, rows, i),
    ensures
        suspects(ps, rows, k).len() == 0,
    decreases k,
{
    if k > 0 {
        lemma_no_suspects(ps, rows, k - 1);
    }
}

proof fn lemma_no_mtime_known(ps: Seq<Primary>, rows: Seq<CatalogFile>, km: Map<u32, Seq<char>>, k: int)
    requires
        k <= ps.len(),
        forall|i: int| 0 <= i < ps.len() ==> #[trigger] first_mtime_row(ps[i], rows, rows.len() as int) is None,
    ensures
        with_mtime_known(ps, rows, km, k) == km,
    decreases k,
{
    if k > 0 {
        lemma_no_mtime_known(ps, rows, km, k - 1);
    }
}

/// A card none of whose photos shares its name and size with another photo or a catalog file
/// is not read, and nothing on it is marked.
pub proof fn law_new_photos_are_not_read(
    r: ImportDupes,
    ps: Seq<Primary>,
    rows: Seq<CatalogFile>,
    card: Seq<Option<Seq<char>>>,
    rh: Seq<Option<Seq<char>>>,
)
    requires
        found(r, ps, rows, card, rh),
        forall|i: int| 0 <= i < ps.len() ==> !#[trigger] suspect(ps, rows, i),
        forall|i: int| 0 <= i < ps.len() ==> #[trigger] first_mtime_row(ps[i], rows, rows.len() as int) is None,
    ensures
        r.hashed == 0,
        r.copies@ == Map::<u32, u32>::empty(),
        r.known@.dom() == Set::<u32>::empty(),
{
    lemma_no_suspects(ps, rows, ps.len() as int);
    let sus = suspects(ps, rows, ps.len() as int);
    let es = hashed_entries(sus, card, sus.len() as int);
    assert(es.len() == 0);
    assert(by_path(ps, es).len() == 0);
    let kl = known_list(ps, rows, rh, rows.len() as int);
    let km0 = settle(ps, rows, kl, by_path(ps, es), 0).2;
    lemma_no_mtime_known(ps, rows, km0, ps.len() as int);
    assert(r.known@.dom() =~= Set::<u32>::empty());
}
} // verus!
