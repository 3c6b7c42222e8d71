//! Byte-identical files in the catalog: files with the same size and the same BLAKE3 are one
//! duplicate group. Each group lists its files oldest first (the copy that has been in the
//! catalog longest is offered as the one to keep), and groups come largest waste first.

use crate::text;
use vstd::prelude::*;

verus! {

/// A file whose size collides with another's: its id, size and root.
#[derive(Clone, Copy, Debug, PartialEq, Eq, Structural)]
pub struct DupCandidate {
    pub id: i64,
    pub size: i64,
    pub root: i64,
}

/// Which folders to look in.
#[derive(Clone, Debug, Default)]
pub struct DupScope {
    /// Roots to search; empty means the whole catalog.
    pub roots: Vec<i64>,
    /// With `roots` set: also read files outside them, and report a group when any of its
    /// copies is inside.
    pub whole_library: bool,
}

/// One file in a duplicate group.
#[derive(Clone, Debug)]
pub struct DupFile {
    pub file_id: i64,
    pub asset_id: Option<i64>,
    pub root_id: i64,
    pub root: String,
    pub rel: String,
    pub path: String,
    pub name: String,
    pub kind: String,
    /// Role in its asset: a `raw` primary, its `jpeg`, a sidecar…
    pub role: Option<String>,
    pub indexed_at: String,
    /// What would be merged onto the keeper if this copy went.
    pub rating: i64,
    pub flag: String,
    pub keywords: i64,
    pub renders: i64,
    /// The file is on an online root and still there.
    pub present: bool,
}

/// Files that are byte-for-byte the same.
#[derive(Clone, Debug)]
pub struct DupGroup {
    pub blake3: String,
    pub size: i64,
    pub files: Vec<DupFile>,
    /// Bytes that would come back if every copy but one went.
    pub wasted: i64,
}

#[derive(Clone, Debug, Default)]
pub struct DupScan {
    pub groups: Vec<DupGroup>,
    /// Files read to settle a size collision.
    pub hashed: usize,
    pub wasted: i64,
}

/// Searching only some folders, and not against the rest of the library.
pub open spec fn narrow_spec(scope_roots_len: nat, whole_library: bool) -> bool {
    scope_roots_len > 0 && !whole_library
}

impl DupScope {
    /// Candidates and the "which sizes repeat" question both stay inside the chosen roots.
    pub fn narrow(&self) -> (r: bool)
        ensures
            r == narrow_spec(self.roots@.len(), self.whole_library),
    {
        self.roots.len() > 0 && !self.whole_library
    }
}

/// The hash recorded for file `id`: the last of `hashes` for it.
pub open spec fn hash_of(hashes: Seq<(i64, Seq<char>)>, id: i64, n: int) -> Option<Seq<char>>
    decreases n,
{
    if n <= 0 {
        None
    } else if hashes[n - 1].0 == id {
        Some(hashes[n - 1].1)
    } else {
        hash_of(hashes, id, n - 1)
    }
}

pub open spec fn hash_views(h: Seq<(i64, String)>) -> Seq<(i64, Seq<char>)> {
    h.map_values(|x: (i64, String)| (x.0, x.1@))
}

/// The root of file `id`: the last candidate with that id.
pub open spec fn root_of(c: Seq<DupCandidate>, id: i64, n: int) -> Option<i64>
    decreases n,
{
    if n <= 0 {
        None
    } else if c[n - 1].id == id {
        Some(c[n - 1].root)
    } else {
        root_of(c, id, n - 1)
    }
}

/// The (size, hash) keys of the hashed candidates before `n`, each once, in order of first
/// appearance.
pub open spec fn keys_upto(c: Seq<DupCandidate>, h: Seq<(i64, Seq<char>)>, n: int) -> Seq<(i64, Seq<char>)>
    decreases n,
{
    if n <= 0 {
        seq![]
    } else {
        let ks = keys_upto(c, h, n - 1);
        match hash_of(h, c[n - 1].id, h.len() as int) {
            Some(hh) => if ks.contains((c[n - 1].size, hh)) {
                ks
            } else {
                ks.push((c[n - 1].size, hh))
            },
            None => ks,
        }
    }
}

/// The ids of the candidates before `n` with key `k`, in order.
pub open spec fn ids_with(c: Seq<DupCandidate>, h: Seq<(i64, Seq<char>)>, k: (i64, Seq<char>), n: int) -> Seq<i64>
    decreases n,
{
    if n <= 0 {
        seq![]
    } else {
        let ids = ids_with(c, h, k, n - 1);
        if hash_of(h, c[n - 1].id, h.len() as int) == Some(k.1) && c[n - 1].size == k.0 {
            ids.push(c[n - 1].id)
        } else {
            ids
        }
    }
}

/// A group is reported when it has at least two files and, with roots wanted, one of them
/// lies in a wanted root.
pub open spec fn reported(c: Seq<DupCandidate>, ids: Seq<i64>, wanted: Seq<i64>) -> bool {
    &&& ids.len() >= 2
    &&& (wanted.len() == 0 || exists|i: int|
        0 <= i < ids.len() && (root_of(c, #[trigger] ids[i], c.len() as int) matches Some(r) && wanted.contains(r)))
}

/// The reported groups' keys and ids, in order of first appearance.
pub open spec fn dup_sets(c: Seq<DupCandidate>, h: Seq<(i64, Seq<char>)>, wanted: Seq<i64>, m: int) -> Seq<
    (i64, Seq<char>, Seq<i64>),
>
    decreases m,
{
    if m <= 0 {
        seq![]
    } else {
        let head = dup_sets(c, h, wanted, m - 1);
        let k = keys_upto(c, h, c.len() as int)[m - 1];
        let ids = ids_with(c, h, k, c.len() as int);
        if reported(c, ids, wanted) {
            head.push((k.0, k.1, ids))
        } else {
            head
        }
    }
}

pub open spec fn key_views(k: Seq<(i64, Vec<char>)>) -> Seq<(i64, Seq<char>)> {
    k.map_values(|x: (i64, Vec<char>)| (x.0, x.1@))
}

pub open spec fn set_views(v: Seq<(i64, String, Vec<i64>)>) -> Seq<(i64, Seq<char>, Seq<i64>)> {
    v.map_values(|x: (i64, String, Vec<i64>)| (x.0, x.1@, x.2@))
}

proof fn lemma_keys_no_dup(c: Seq<DupCandidate>, h: Seq<(i64, Seq<char>)>, n: int)
    requires
        n <= c.len(),
    ensures
        keys_upto(c, h, n).no_duplicates(),
    decreases n,
{
    if n > 0 {
        lemma_keys_no_dup(c, h, n - 1);
        let ks = keys_upto(c, h, n - 1);
        if let Some(hh) = hash_of(h, c[n - 1].id, h.len() as int) {
            if !ks.contains((c[n - 1].size, hh)) {
                let k2 = ks.push((c[n - 1].size, hh));
                assert forall|a: int, b: int| 0 <= a < b < k2.len() implies k2[a] != k2[b] by {
                    if b == k2.len() - 1 {
                        assert(ks[a] == k2[a]);
                    } else {
                        assert(ks[a] == k2[a] && ks[b] == k2[b]);
                    }
                }
            }
        }
    }
}

/// The file groups: candidates with the same size and hash, each group once, in order of
/// first appearance; only those `reported` for `wanted`.
pub fn duplicate_sets(c: &Vec<DupCandidate>, hashes: &Vec<(i64, String)>, wanted: &Vec<i64>) -> (r: Vec<(i64, String, Vec<i64>)>)
    ensures
        ({
            let hv = hash_views(hashes@);
            set_views(r@) == dup_sets(c@, hv, wanted@, keys_upto(c@, hv, c.len() as int).len() as int)
        }),
{
    broadcast use vstd::std_specs::hash::group_hash_axioms;
    let ghost hv = hash_views(hashes@);
    // id -> position of its last hash.
    let mut hidx: std::collections::HashMap<i64, usize> = std::collections::HashMap::new();
    let mut j: usize = 0;
    while j < hashes.len()
        invariant
            j <= hashes.len(),
            hv == hash_views(hashes@),
            forall|id: i64|
                #![trigger hidx@.contains_key(id)]
                (hidx@.contains_key(id) <==> hash_of(hv, id, j as int) is Some) && (hidx@.contains_key(id) ==> (hidx@[id] as int)
                    < j && hash_of(hv, id, j as int) == Some(hv[hidx@[id] as int].1)),
        decreases hashes.len() - j,
    {
        hidx.insert(hashes[j].0, j);
        j = j + 1;
    }
    // id -> root of its last candidate.
    let mut ridx: std::collections::HashMap<i64, i64> = std::collections::HashMap::new();
    let mut q: usize = 0;
    while q < c.len()
        invariant
            q <= c.len(),
            forall|id: i64|
                #![trigger ridx@.contains_key(id)]
                (ridx@.contains_key(id) <==> root_of(c@, id, q as int) is Some) && (ridx@.contains_key(id) ==> root_of(
                    c@,
                    id,
                    q as int,
                ) == Some(ridx@[id])),
        decreases c.len() - q,
    {
        ridx.insert(c[q].id, c[q].root);
        q = q + 1;
    }
    // Group the candidates by key.
    let mut keys: Vec<(i64, Vec<char>)> = Vec::new();
    let mut ids: Vec<Vec<i64>> = Vec::new();
    let mut i: usize = 0;
    while i < c.len()
        invariant
            i <= c.len(),
            hv == hash_views(hashes@),
            forall|id: i64|
                #![trigger hidx@.contains_key(id)]
                (hidx@.contains_key(id) <==> hash_of(hv, id, hashes.len() as int) is Some) && (hidx@.contains_key(id) ==> (
                hidx@[id] as int) < hashes.len() && hash_of(hv, id, hashes.len() as int) == Some(hv[hidx@[id] as int].1)),
            key_views(keys@) == keys_upto(c@, hv, i as int),
            ids.len() == keys.len(),
            forall|k: int| 0 <= k < keys.len() ==> (#[trigger] ids@[k])@ == ids_with(c@, hv, key_views(keys@)[k], i as int),
        decreases c.len() - i,
    {
        proof {
            lemma_keys_no_dup(c@, hv, i as int);
        }
        let ghost kv = key_views(keys@);
        let id = c[i].id;
        match hidx.get(&id) {
            Some(hj) => {
                let hc = text::chars_of(hashes[*hj].1.as_str());
                assert(hc@ == hv[*hj as int].1);
                let size = c[i].size;
                let mut k: usize = 0;
                let mut found = false;
                while k < keys.len()
                    invariant_except_break
                        !found,
                    invariant
                        k <= keys.len(),
                        forall|x: int| 0 <= x < k ==> key_views(keys@)[x] != (size, hc@),
                    ensures
                        found ==> k < keys.len() && key_views(keys@)[k as int] == (size, hc@),
                        !found ==> forall|x: int| 0 <= x < keys.len() ==> key_views(keys@)[x] != (size, hc@),
                    decreases keys.len() - k,
                {
                    if keys[k].0 == size && text::eq_chars(&keys[k].1, &hc) {
                        found = true;
                        break;
                    }
                    k = k + 1;
                }
                let ghost old_ids = ids@;
                if found {
                    let mut v = ids[k].clone();
                    v.push(id);
                    ids.set(k, v);
                    proof {
                        assert(kv.contains((size, hc@)));
                        assert(keys_upto(c@, hv, i + 1) == kv);
                        assert forall|x: int| 0 <= x < keys.len() implies (#[trigger] ids@[x])@ == ids_with(
                            c@,
                            hv,
                            key_views(keys@)[x],
                            i + 1,
                        ) by {
                            if x != k {
                                assert(kv[x] != kv[k as int]);
                            }
                        }
                    }
                } else {
                    let ghost nk = (size, hc@);
                    keys.push((size, hc));
                    let mut v: Vec<i64> = Vec::new();
                    v.push(id);
                    ids.push(v);
                    proof {
                        assert(!kv.contains(nk));
                        assert(key_views(keys@) =~= kv.push(nk));
                        assert forall|x: int| 0 <= x < keys.len() implies (#[trigger] ids@[x])@ == ids_with(
                            c@,
                            hv,
                            key_views(keys@)[x],
                            i + 1,
                        ) by {
                            if x < kv.len() {
                                assert(kv[x] != nk);
                                assert(old_ids[x] == ids@[x]);
                            } else {
                                lemma_ids_with_absent(c@, hv, nk, i as int);
                                assert(ids@[x]@ =~= seq![id]);
                            }
                        }
                    }
                }
            },
            None => {
                proof {
                    assert forall|x: int| 0 <= x < keys.len() implies (#[trigger] ids@[x])@ == ids_with(
                        c@,
                        hv,
                        key_views(keys@)[x],
                        i + 1,
                    ) by {}
                }
            },
        }
        i = i + 1;
    }
    // The reported groups.
    let ghost all_keys = key_views(keys@);
    let mut out: Vec<(i64, String, Vec<i64>)> = Vec::new();
    let mut m: usize = 0;
    while m < keys.len()
        invariant
            m <= keys.len(),
            ids.len() == keys.len(),
            all_keys == key_views(keys@),
            all_keys == keys_upto(c@, hv, c.len() as int),
            forall|k: int| 0 <= k < keys.len() ==> (#[trigger] ids@[k])@ == ids_with(c@, hv, all_keys[k], c.len() as int),
            forall|id: i64|
                #![trigger ridx@.contains_key(id)]
                (ridx@.contains_key(id) <==> root_of(c@, id, c.len() as int) is Some) && (ridx@.contains_key(id) ==> root_of(
                    c@,
                    id,
                    c.len() as int,
                ) == Some(ridx@[id])),
            set_views(out@) == dup_sets(c@, hv, wanted@, m as int),
        decreases keys.len() - m,
    {
        let group = &ids[m];
        let mut keep = group.len() >= 2;
        if keep && wanted.len() > 0 {
            let mut any = false;
            let mut t: usize = 0;
            while t < group.len()
                invariant
                    t <= group.len(),
                    forall|id: i64|
                        #![trigger ridx@.contains_key(id)]
                        (ridx@.contains_key(id) <==> root_of(c@, id, c.len() as int) is Some) && (ridx@.contains_key(id)
                            ==> root_of(c@, id, c.len() as int) == Some(ridx@[id])),
                    any <==> exists|x: int|
                        0 <= x < t && (root_of(c@, #[trigger] group@[x], c.len() as int) matches Some(r) && wanted@.contains(r)),
                decreases group.len() - t,
            {
                match ridx.get(&group[t]) {
                    Some(r) => {
                        let mut w: usize = 0;
                        let mut hit = false;
                        while w < wanted.len()
                            invariant
                                w <= wanted.len(),
                                hit <==> exists|y: int| 0 <= y < w && wanted@[y] == *r,
                            decreases wanted.len() - w,
                        {
                            if wanted[w] == *r {
                                hit = true;
                            }
                            w = w + 1;
                        }
                        if hit {
                            any = true;
                        }
                        proof {
                            assert(root_of(c@, group@[t as int], c.len() as int) == Some(*r));
                            if hit {
                                assert(wanted@.contains(*r));
                            }
                        }
                    },
                    None => {},
                }
                t = t + 1;
            }
            keep = any;
        }
        proof {
            assert(group@ == ids_with(c@, hv, all_keys[m as int], c.len() as int));
            assert(keep == reported(c@, group@, wanted@));
        }
        if keep {
            let ghost prev = out@;
            out.push((keys[m].0, text::string_of(&keys[m].1), group.clone()));
            assert(set_views(out@) =~= set_views(prev).push((all_keys[m as int].0, all_keys[m as int].1, group@)));
        }
        m = m + 1;
    }
    out
}

proof fn lemma_ids_with_absent(c: Seq<DupCandidate>, h: Seq<(i64, Seq<char>)>, k: (i64, Seq<char>), n: int)
    requires
        0 <= n <= c.len(),
        !keys_upto(c, h, n).contains(k),
    ensures
        ids_with(c, h, k, n) == Seq::<i64>::empty(),
    decreases n,
{
    if n > 0 {
        let ks = keys_upto(c, h, n - 1);
        if let Some(hh) = hash_of(h, c[n - 1].id, h.len() as int) {
            if !ks.contains((c[n - 1].size, hh)) {
                assert(keys_upto(c, h, n)[ks.len() as int] == (c[n - 1].size, hh));
            } else {
                assert(ks.contains((c[n - 1].size, hh)));
            }
            if (c[n - 1].size, hh) == k {
                assert(keys_upto(c, h, n).contains(k));
            }
        }
        if ks.contains(k) {
            let x = choose|x: int| 0 <= x < ks.len() && ks[x] == k;
            assert(keys_upto(c, h, n)[x] == k);
        }
        lemma_ids_with_absent(c, h, k, n - 1);
    }
}

/// `a` sorts before `b`, character by character (as `str`'s order does).
pub open spec fn lex_lt(a: Seq<char>, b: Seq<char>) -> bool
    decreases a.len(),
{
    if a.len() == 0 {
        b.len() > 0
    } else if b.len() == 0 {
        false
    } else if a[0] != b[0] {
        a[0] < b[0]
    } else {
        lex_lt(a.drop_first(), b.drop_first())
    }
}

/// No string sorts before itself.
pub proof fn lemma_lex_irrefl(a: Seq<char>)
    ensures
        !lex_lt(a, a),
    decreases a.len(),
{
    if a.len() > 0 {
        lemma_lex_irrefl(a.drop_first());
    }
}

/// Sorting before is transitive.
pub proof fn lemma_lex_trans(a: Seq<char>, b: Seq<char>, c: Seq<char>)
    requires
        lex_lt(a, b),
        lex_lt(b, c),
    ensures
        lex_lt(a, c),
    decreases a.len(),
{
    if a.len() > 0 && b.len() > 0 && c.len() > 0 && a[0] == b[0] && b[0] == c[0] {
        lemma_lex_trans(a.drop_first(), b.drop_first(), c.drop_first());
    }
}

/// Of two different strings, one sorts before the other.
pub proof fn lemma_lex_total(a: Seq<char>, b: Seq<char>)
    requires
        a != b,
    ensures
        lex_lt(a, b) || lex_lt(b, a),
    decreases a.len(),
{
    if a.len() > 0 && b.len() > 0 && a[0] == b[0] {
        if a.drop_first() == b.drop_first() {
            assert(a =~= seq![a[0]] + a.drop_first());
            assert(b =~= seq![b[0]] + b.drop_first());
        }
        lemma_lex_total(a.drop_first(), b.drop_first());
    } else if a.len() == 0 && b.len() == 0 {
        assert(a =~= b);
    }
}

pub fn lex_less(a: &Vec<char>, b: &Vec<char>) -> (r: bool)
    ensures
        r == lex_lt(a@, b@),
{
    let mut i: usize = 0;
    assert(a@.skip(0) =~= a@ && b@.skip(0) =~= b@);
    while i < a.len() && i < b.len() && a[i] == b[i]
        invariant
            i <= a.len(),
            i <= b.len(),
            lex_lt(a@, b@) == lex_lt(a@.skip(i as int), b@.skip(i as int)),
        decreases a.len() - i,
    {
        proof {
            assert(a@.skip(i as int).drop_first() =~= a@.skip(i + 1));
            assert(b@.skip(i as int).drop_first() =~= b@.skip(i + 1));
        }
        i = i + 1;
    }
    if i == a.len() {
        i < b.len()
    } else if i == b.len() {
        false
    } else {
        a[i] < b[i]
    }
}

/// `a` is listed before `b`: indexed earlier, or at the same time with a smaller path.
pub open spec fn file_before(a: DupFile, b: DupFile) -> bool {
    lex_lt(a.indexed_at@, b.indexed_at@) || (a.indexed_at@ == b.indexed_at@ && lex_lt(a.path@, b.path@))
}

/// The position of the first file that `x` is listed before.
pub open spec fn place_of(t: Seq<DupFile>, x: DupFile) -> int
    decreases t.len(),
{
    if t.len() == 0 {
        0
    } else if file_before(x, t[0]) {
        0
    } else {
        1 + place_of(t.drop_first(), x)
    }
}

/// The files oldest first, then by path; equal keys keep their order (a stable sort).
pub open spec fn sort_files(s: Seq<DupFile>) -> Seq<DupFile>
    decreases s.len(),
{
    if s.len() == 0 {
        seq![]
    } else {
        let t = sort_files(s.drop_last());
        let p = place_of(t, s.last());
        t.take(p).push(s.last()) + t.skip(p)
    }
}

proof fn lemma_place_of(t: Seq<DupFile>, x: DupFile)
    ensures
        0 <= place_of(t, x) <= t.len(),
        forall|i: int| 0 <= i < place_of(t, x) ==> !file_before(x, #[trigger] t[i]),
        place_of(t, x) < t.len() ==> file_before(x, t[place_of(t, x)]),
    decreases t.len(),
{
    if t.len() > 0 && !file_before(x, t[0]) {
        lemma_place_of(t.drop_first(), x);
        assert forall|i: int| 0 <= i < place_of(t, x) implies !file_before(x, #[trigger] t[i]) by {
            if i > 0 {
                assert(t[i] == t.drop_first()[i - 1]);
            }
        }
    }
}

fn before_exec(a: &DupFile, b: &DupFile) -> (r: bool)
    ensures
        r == file_before(*a, *b),
{
    let ai = text::chars_of(a.indexed_at.as_str());
    let bi = text::chars_of(b.indexed_at.as_str());
    lex_less(&ai, &bi) || (text::eq_chars(&ai, &bi) && lex_less(
        &text::chars_of(a.path.as_str()),
        &text::chars_of(b.path.as_str()),
    ))
}

/// A group of `files` (the copies of one size and hash), oldest first, with the bytes that
/// every copy but one wastes; `None` when that does not fit in 64 bits.
pub fn finish_group(size: i64, blake3: String, files: Vec<DupFile>) -> (r: Option<DupGroup>)
    requires
        1 <= files.len() <= i64::MAX,
    ensures
        match r {
            Some(g) => g.size == size && g.blake3 == blake3 && g.files@ == sort_files(files@) && g.wasted == size * (
            files.len() - 1),
            None => size * (files.len() - 1) > i64::MAX || size * (files.len() - 1) < i64::MIN,
        },
{
    let ghost fs = files@;
    let n = files.len();
    let mut out: Vec<DupFile> = Vec::new();
    let mut rest = files;
    let mut i: usize = 0;
    while i < n
        invariant
            i <= n,
            n == fs.len(),
            rest@ == fs.skip(i as int),
            out@ == sort_files(fs.take(i as int)),
        decreases n - i,
    {
        let f = rest.remove(0);
        assert(f == fs[i as int]);
        let mut p: usize = 0;
        while p < out.len() && !before_exec(&f, &out[p])
            invariant
                p <= out.len(),
                forall|x: int| 0 <= x < p ==> !file_before(f, #[trigger] out@[x]),
            decreases out.len() - p,
        {
            p = p + 1;
        }
        let ghost prev = out@;
        proof {
            lemma_place_of(prev, f);
            let pl = place_of(prev, f);
            if pl < p {
                assert(!file_before(f, prev[pl]));
            }
            if p < pl {
                assert(file_before(f, prev[p as int]));
            }
            assert(fs.take(i + 1).drop_last() =~= fs.take(i as int));
        }
        out.insert(p, f);
        assert(out@ =~= prev.take(p as int).push(f) + prev.skip(p as int));
        assert(rest@ =~= fs.skip(i + 1));
        i = i + 1;
    }
    assert(fs.take(n as int) =~= fs);
    let m = (n - 1) as i64;
    match size.checked_mul(m) {
        Some(w) => Some(DupGroup { blake3, size, files: out, wasted: w }),
        None => None,
    }
}

/// The position of the first group that wastes less than `w`.
pub open spec fn place_by_waste(t: Seq<DupGroup>, w: i64) -> int
    decreases t.len(),
{
    if t.len() == 0 {
        0
    } else if t[0].wasted < w {
        0
    } else {
        1 + place_by_waste(t.drop_first(), w)
    }
}

/// Groups largest waste first; equal wastes keep their order (a stable sort).
pub open spec fn sort_groups(s: Seq<DupGroup>) -> Seq<DupGroup>
    decreases s.len(),
{
    if s.len() == 0 {
        seq![]
    } else {
        let t = sort_groups(s.drop_last());
        let p = place_by_waste(t, s.last().wasted);
        t.take(p).push(s.last()) + t.skip(p)
    }
}

pub open spec fn total_waste(s: Seq<DupGroup>) -> int
    decreases s.len(),
{
    if s.len() == 0 {
        0
    } else {
        total_waste(s.drop_last()) + s.last().wasted
    }
}

/// Every running total of the groups' waste fits in 64 bits.
pub open spec fn sums_fit(s: Seq<DupGroup>) -> bool {
    forall|k: int| 0 <= k <= s.len() ==> i64::MIN <= #[trigger] total_waste(s.take(k)) <= i64::MAX
}

proof fn lemma_place_by_waste(t: Seq<DupGroup>, w: i64)
    ensures
        0 <= place_by_waste(t, w) <= t.len(),
        forall|i: int| 0 <= i < place_by_waste(t, w) ==> (#[trigger] t[i]).wasted >= w,
        place_by_waste(t, w) < t.len() ==> t[place_by_waste(t, w)].wasted < w,
    decreases t.len(),
{
    if t.len() > 0 && t[0].wasted >= w {
        lemma_place_by_waste(t.drop_first(), w);
        assert forall|i: int| 0 <= i < place_by_waste(t, w) implies (#[trigger] t[i]).wasted >= w by {
            if i > 0 {
                assert(t[i] == t.drop_first()[i - 1]);
            }
        }
    }
}

/// The scan's result: the groups largest waste first, and the waste of them all; `None` when
/// a running total does not fit in 64 bits.
pub fn dup_scan(groups: Vec<DupGroup>, hashed: usize) -> (r: Option<DupScan>)
    ensures
        match r {
            Some(d) => d.groups@ == sort_groups(groups@) && d.hashed == hashed && d.wasted == total_waste(sort_groups(groups@))
                && sums_fit(sort_groups(groups@)),
            None => !sums_fit(sort_groups(groups@)),
        },
{
    let ghost gs = groups@;
    let n = groups.len();
    let mut rest = groups;
    let mut out: Vec<DupGroup> = Vec::new();
    let mut i: usize = 0;
    while i < n
        invariant
            i <= n,
            n == gs.len(),
            rest@ == gs.skip(i as int),
            out@ == sort_groups(gs.take(i as int)),
        decreases n - i,
    {
        let g = rest.remove(0);
        assert(g == gs[i as int]);
        let mut p: usize = 0;
        while p < out.len() && out[p].wasted >= g.wasted
            invariant
                p <= out.len(),
                forall|x: int| 0 <= x < p ==> (#[trigger] out@[x]).wasted >= g.wasted,
            decreases out.len() - p,
        {
            p = p + 1;
        }
        let ghost prev = out@;
        proof {
            lemma_place_by_waste(prev, g.wasted);
            let pl = place_by_waste(prev, g.wasted);
            if pl < p {
                assert(prev[pl].wasted >= g.wasted);
            }
            if p < pl {
                assert(prev[p as int].wasted < g.wasted);
            }
            assert(gs.take(i + 1).drop_last() =~= gs.take(i as int));
        }
        out.insert(p, g);
        assert(out@ =~= prev.take(p as int).push(g) + prev.skip(p as int));
        assert(rest@ =~= gs.skip(i + 1));
        i = i + 1;
    }
    assert(gs.take(n as int) =~= gs);
    let ghost sorted = out@;
    let mut total: i64 = 0;
    let mut k: usize = 0;
    assert(sorted.take(0) =~= Seq::<DupGroup>::empty());
    while k < out.len()
        invariant
            k <= out.len(),
            sorted == out@,
            sorted == sort_groups(gs),
            gs == groups@,
            total == total_waste(sorted.take(k as int)),
            forall|x: int| 0 <= x <= k ==> i64::MIN <= #[trigger] total_waste(sorted.take(x)) <= i64::MAX,
        decreases out.len() - k,
    {
        assert(sorted.take(k + 1).drop_last() =~= sorted.take(k as int));
        match total.checked_add(out[k].wasted) {
            Some(t) => total = t,
            None => {
                assert(!(i64::MIN <= total_waste(sorted.take(k + 1)) <= i64::MAX));
                assert(!sums_fit(sorted));
                return None;
            },
        }
        k = k + 1;
    }
    assert(sorted.take(out.len() as int) =~= sorted);
    Some(DupScan { groups: out, hashed, wasted: total })
}

/// What to do with one copy marked for removal.
#[derive(Clone, Copy, Debug, PartialEq, Eq, Structural)]
pub enum PurgeStep {
    /// Remove it and merge what the catalog knew onto the keeper.
    Remove,
    /// Not a copy of the file being kept: refused.
    NotACopy,
    /// The keeper itself, by another id: nothing to do.
    Same,
}

/// What becomes of a copy marked for removal.
pub open spec fn purge_verdict(
    victim_hash: Option<Seq<char>>,
    victim_size: i64,
    keep_hash: Seq<char>,
    keep_size: i64,
    victim_path: Seq<char>,
    keep_path: Seq<char>,
) -> PurgeStep {
    if victim_hash != Some(keep_hash) || victim_size != keep_size {
        PurgeStep::NotACopy
    } else if victim_path == keep_path {
        PurgeStep::Same
    } else {
        PurgeStep::Remove
    }
}

/// A copy is removed only when its hash and size are the keeper's, and it is not the keeper's
/// own file.
pub fn purge_step(
    victim_hash: &Option<String>,
    victim_size: i64,
    keep_hash: &str,
    keep_size: i64,
    victim_path: &str,
    keep_path: &str,
) -> (r: PurgeStep)
    ensures
        r == purge_verdict(
            match victim_hash {
                Some(h) => Some(h@),
                None => None,
            },
            victim_size,
            keep_hash@,
            keep_size,
            victim_path@,
            keep_path@,
        ),
{
    let same_hash = match victim_hash {
        Some(h) => text::eq_chars(&text::chars_of(h.as_str()), &text::chars_of(keep_hash)),
        None => false,
    };
    if !same_hash || victim_size != keep_size {
        PurgeStep::NotACopy
    } else if text::eq_chars(&text::chars_of(victim_path), &text::chars_of(keep_path)) {
        PurgeStep::Same
    } else {
        PurgeStep::Remove
    }
}

/// How a file is removed.
#[derive(Clone, Copy, Debug, PartialEq, Eq, Structural)]
pub enum Removal {
    /// Move to the system trash: recoverable, and the default.
    Trash,
    /// Delete outright. Only when the caller asks for it explicitly.
    Delete,
}

/// What a purge did.
#[derive(Clone, Debug, Default)]
pub struct PurgeReport {
    pub removed: usize,
    pub bytes: i64,
    /// Files that could not be removed, with the reason.
    pub failed: Vec<(String, String)>,
    /// Photos that were left with no files and so were dropped from the catalog.
    pub assets_removed: usize,
}

/// One file of a photo, as offered for review before anything is deleted.
#[derive(Clone, Debug)]
pub struct DoomedFile {
    pub file_id: i64,
    pub asset_id: i64,
    pub path: String,
    pub name: String,
    pub role: String,
    pub size: i64,
    pub present: bool,
}

pub open spec fn failures(v: Seq<(String, String)>) -> Seq<(Seq<char>, Seq<char>)> {
    v.map_values(|x: (String, String)| (x.0@, x.1@))
}

impl PurgeReport {
    /// Nothing done yet.
    pub fn new() -> (r: PurgeReport)
        ensures
            r.removed == 0 && r.bytes == 0 && r.failed@.len() == 0 && r.assets_removed == 0,
    {
        PurgeReport { removed: 0, bytes: 0, failed: Vec::new(), assets_removed: 0 }
    }

    /// A file of `size` bytes went.
    pub fn removed_one(&mut self, size: i64)
        requires
            old(self).removed < usize::MAX,
            i64::MIN <= old(self).bytes + size <= i64::MAX,
        ensures
            final(self).removed == old(self).removed + 1,
            final(self).bytes == old(self).bytes + size,
            final(self).failed@ == old(self).failed@,
            final(self).assets_removed == old(self).assets_removed,
    {
        self.removed = self.removed + 1;
        self.bytes = self.bytes + size;
    }

    /// The file at `path` could not be removed, for `why`.
    pub fn failed_one(&mut self, path: String, why: String)
        ensures
            failures(final(self).failed@) == failures(old(self).failed@).push((path@, why@)),
            final(self).removed == old(self).removed,
            final(self).bytes == old(self).bytes,
            final(self).assets_removed == old(self).assets_removed,
    {
        let ghost before = failures(self.failed@);
        self.failed.push((path, why));
        assert(failures(self.failed@) =~= before.push((path@, why@)));
    }

    /// The copy at `path` was refused: it is not a copy of the file being kept.
    pub fn refused(&mut self, path: String)
        ensures
            failures(final(self).failed@) == failures(old(self).failed@).push((path@, "not a copy of the file being kept"@)),
            final(self).removed == old(self).removed,
            final(self).bytes == old(self).bytes,
            final(self).assets_removed == old(self).assets_removed,
    {
        self.failed_one(path, "not a copy of the file being kept".to_string());
    }
}

} // verus!
