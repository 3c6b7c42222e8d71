//! Re-indexing a catalog root: comparing the files found on disk with the rows the catalog
//! holds for the root. A file whose row still matches in size and mtime is unchanged; a row
//! at its path that does not match is changed; a file with no row is new, unless exactly one
//! row that vanished from disk has its name, size and mtime, in which case the file moved
//! there. Vanished rows that did not move and were not already flagged are gone. Only
//! directories with new, changed, moved or gone files need regrouping.

use crate::dupes::{lemma_lex_irrefl, lemma_lex_total, lemma_lex_trans, lex_less, lex_lt};
use crate::paths::{self, parent};
use crate::strindex::{hash_chars, index_inv, str_hash, views, StrIndex};
use crate::text;
use std::collections::HashMap;
use vstd::prelude::*;

verus! {

/// A file found on disk under the root.
#[derive(Clone, Debug)]
pub struct DiskEntry {
    /// Forward-slash path relative to the root.
    pub rel: String,
    pub name: String,
    pub size: u64,
    /// Modification time in nanoseconds since the epoch, when known.
    pub mtime: Option<i64>,
}

/// A file row the catalog holds for the root.
#[derive(Clone, Debug)]
pub struct DbEntry {
    pub id: i64,
    pub rel: String,
    pub name: String,
    pub size: i64,
    pub mtime: Option<i64>,
    /// Already flagged as missing by an earlier scan.
    pub missing: bool,
}

/// What became of a file found on disk, with the row it keeps.
#[derive(Clone, Copy, Debug, PartialEq, Eq, Structural)]
pub enum FileState {
    Unchanged(i64),
    Changed(i64),
    New,
    Moved(i64),
}

/// The last row before `m` at path `rel`.
pub open spec fn last_rel(db: Seq<DbEntry>, rel: Seq<char>, m: int) -> Option<int>
    decreases m,
{
    if m <= 0 {
        None
    } else if db[m - 1].rel@ == rel {
        Some(m - 1)
    } else {
        last_rel(db, rel, m - 1)
    }
}

/// A file against the row at its path (the last one, should there be several).
pub open spec fn base_state(d: DiskEntry, db: Seq<DbEntry>) -> FileState {
    match last_rel(db, d.rel@, db.len() as int) {
        Some(j) => if !db[j].missing && db[j].size == d.size as i64 && db[j].mtime == d.mtime {
            FileState::Unchanged(db[j].id)
        } else {
            FileState::Changed(db[j].id)
        },
        None => FileState::New,
    }
}

/// Some file on disk is at `rel`.
pub open spec fn on_disk(disk: Seq<DiskEntry>, rel: Seq<char>) -> bool {
    exists|i: int| 0 <= i < disk.len() && (#[trigger] disk[i]).rel@ == rel
}

/// Row `j` has no file at its path any more.
pub open spec fn vanished(disk: Seq<DiskEntry>, db: Seq<DbEntry>, j: int) -> bool {
    !on_disk(disk, db[j].rel@)
}

/// What identifies a moved file: name, size and mtime.
pub open spec fn disk_key(d: DiskEntry) -> (Seq<char>, i64, Option<i64>) {
    (d.name@, d.size as i64, d.mtime)
}

pub open spec fn row_key(f: DbEntry) -> (Seq<char>, i64, Option<i64>) {
    (f.name@, f.size, f.mtime)
}

/// Row `j` vanished and has the key `k`.
pub open spec fn candidate(disk: Seq<DiskEntry>, db: Seq<DbEntry>, k: (Seq<char>, i64, Option<i64>), j: int) -> bool {
    0 <= j < db.len() && vanished(disk, db, j) && row_key(db[j]) == k
}

/// Row `j` is the only vanished row with key `k`.
pub open spec fn sole_candidate(disk: Seq<DiskEntry>, db: Seq<DbEntry>, k: (Seq<char>, i64, Option<i64>), j: int) -> bool {
    &&& candidate(disk, db, k, j)
    &&& forall|j2: int| #[trigger] candidate(disk, db, k, j2) ==> j2 == j
}

/// A file before the `i`-th one is new and has the same key.
pub open spec fn new_before(disk: Seq<DiskEntry>, db: Seq<DbEntry>, i: int) -> bool {
    exists|i2: int|
        0 <= i2 < i && #[trigger] base_state(disk[i2], db) == FileState::New && disk_key(disk[i2]) == disk_key(disk[i])
}

/// The `i`-th file is new, no earlier new file has its key, and exactly one vanished row has
/// it: the file moved from that row.
pub open spec fn moves(disk: Seq<DiskEntry>, db: Seq<DbEntry>, i: int) -> bool {
    &&& base_state(disk[i], db) == FileState::New
    &&& !new_before(disk, db, i)
    &&& exists|j: int| sole_candidate(disk, db, disk_key(disk[i]), j)
}

/// The row the `i`-th file moved from.
pub open spec fn moved_row(disk: Seq<DiskEntry>, db: Seq<DbEntry>, i: int) -> int {
    choose|j: int| sole_candidate(disk, db, disk_key(disk[i]), j)
}

pub open spec fn state_of(disk: Seq<DiskEntry>, db: Seq<DbEntry>, i: int) -> FileState {
    if moves(disk, db, i) {
        FileState::Moved(db[moved_row(disk, db, i)].id)
    } else {
        base_state(disk[i], db)
    }
}

proof fn lemma_last_rel(db: Seq<DbEntry>, rel: Seq<char>, m: int)
    requires
        0 <= m <= db.len(),
    ensures
        last_rel(db, rel, m) matches Some(j) ==> 0 <= j < m && db[j].rel@ == rel && forall|k: int| j < k < m ==> db[k].rel@ != rel,
        last_rel(db, rel, m) is None ==> forall|k: int| 0 <= k < m ==> db[k].rel@ != rel,
    decreases m,
{
    if m > 0 {
        lemma_last_rel(db, rel, m - 1);
    }
}

pub open spec fn rel_views(v: Seq<DiskEntry>) -> Seq<Seq<char>> {
    v.map_values(|d: DiskEntry| d.rel@)
}

fn disk_rels(disk: &Vec<DiskEntry>) -> (r: Vec<Vec<char>>)
    ensures
        r.len() == disk.len(),
        forall|i: int| 0 <= i < disk.len() ==> (#[trigger] r@[i])@ == disk@[i].rel@,
{
    let mut r: Vec<Vec<char>> = Vec::new();
    let mut i: usize = 0;
    while i < disk.len()
        invariant
            i <= disk.len(),
            r.len() == i,
            forall|k: int| 0 <= k < i ==> (#[trigger] r@[k])@ == disk@[k].rel@,
        decreases disk.len() - i,
    {
        r.push(text::chars_of(disk[i].rel.as_str()));
        i = i + 1;
    }
    r
}

fn db_strs(db: &Vec<DbEntry>, names: bool) -> (r: Vec<Vec<char>>)
    ensures
        r.len() == db.len(),
        forall|j: int| 0 <= j < db.len() ==> (#[trigger] r@[j])@ == if names { db@[j].name@ } else { db@[j].rel@ },
{
    let mut r: Vec<Vec<char>> = Vec::new();
    let mut j: usize = 0;
    while j < db.len()
        invariant
            j <= db.len(),
            r.len() == j,
            forall|k: int| 0 <= k < j ==> (#[trigger] r@[k])@ == if names { db@[k].name@ } else { db@[k].rel@ },
        decreases db.len() - j,
    {
        if names {
            r.push(text::chars_of(db[j].name.as_str()));
        } else {
            r.push(text::chars_of(db[j].rel.as_str()));
        }
        j = j + 1;
    }
    r
}

/// An index of every position of `keys`.
fn index_all(keys: &Vec<Vec<char>>) -> (r: StrIndex)
    ensures
        index_inv(r, views(keys@), Set::new(|j: int| 0 <= j < keys.len())),
{
    let mut idx = StrIndex::new();
    let mut j: usize = 0;
    assert(Set::new(|x: int| 0 <= x < 0int) =~= Set::<int>::empty());
    while j < keys.len()
        invariant
            j <= keys.len(),
            index_inv(idx, views(keys@), Set::new(|x: int| 0 <= x < j)),
        decreases keys.len() - j,
    {
        idx.add(keys, j, Ghost(Set::new(|x: int| 0 <= x < j)));
        assert(Set::new(|x: int| 0 <= x < j).insert(j as int) =~= Set::new(|x: int| 0 <= x < j + 1));
        j = j + 1;
    }
    idx
}

/// Each file against the row at its path.
fn base_states(disk: &Vec<DiskEntry>, db: &Vec<DbEntry>) -> (r: Vec<FileState>)
    ensures
        r.len() == disk.len(),
        forall|i: int| 0 <= i < disk.len() ==> #[trigger] r@[i] == base_state(disk@[i], db@),
{
    let rels = db_strs(db, false);
    let ghost keys = views(rels@);
    let ghost all = Set::new(|x: int| 0 <= x < db.len());
    let idx = index_all(&rels);
    let mut r: Vec<FileState> = Vec::new();
    let mut i: usize = 0;
    while i < disk.len()
        invariant
            i <= disk.len(),
            r.len() == i,
            keys == views(rels@),
            rels.len() == db.len(),
            forall|j: int| 0 <= j < db.len() ==> (#[trigger] rels@[j])@ == db@[j].rel@,
            all == Set::new(|x: int| 0 <= x < db.len()),
            index_inv(idx, keys, all),
            forall|k: int| 0 <= k < i ==> #[trigger] r@[k] == base_state(disk@[k], db@),
        decreases disk.len() - i,
    {
        let rel = text::chars_of(disk[i].rel.as_str());
        let h = hash_chars(&rel);
        let b = idx.bucket(h, Ghost(keys), Ghost(all));
        let mut t: usize = b.len();
        let mut found: Option<usize> = None;
        while t > 0
            invariant_except_break
                found is None,
            invariant
                t <= b.len(),
                forall|u: int| t <= u < b.len() ==> (#[trigger] keys[b@[u] as int]) != rel@,
                forall|u: int| 0 <= u < b.len() ==> (#[trigger] b@[u] as int) < db.len(),
                keys == views(rels@),
                rels.len() == db.len(),
            ensures
                found matches Some(u) ==> u < b.len() && keys[b@[u as int] as int] == rel@ && forall|u2: int|
                    u < u2 < b.len() ==> (#[trigger] keys[b@[u2] as int]) != rel@,
                found is None ==> forall|u: int| 0 <= u < b.len() ==> (#[trigger] keys[b@[u] as int]) != rel@,
            decreases t,
        {
            let j = b[t - 1];
            assert(keys[j as int] == rels@[j as int]@);
            if text::eq_chars(&rels[j], &rel) {
                found = Some(t - 1);
                break;
            }
            t = t - 1;
        }
        proof {
            lemma_last_rel(db@, disk@[i as int].rel@, db.len() as int);
        }
        let st = match found {
            Some(u) => {
                let j = b[u];
                proof {
                    assert(keys[j as int] == db@[j as int].rel@);
                    if let Some(j2) = last_rel(db@, rel@, db.len() as int) {
                        if j2 != j {
                            assert(keys[j2] == rel@);
                            assert(str_hash(keys[j2]) == h);
                            assert(all.contains(j2));
                            assert(b@.contains(j2 as usize));
                            let u2 = choose|u2: int| 0 <= u2 < b.len() && b@[u2] == j2 as usize;
                            assert(keys[b@[u2] as int] == rel@);
                            if u2 > u {
                            } else if u2 < u {
                                assert(b@[u2] < b@[u as int]);
                            }
                        }
                    }
                }
                let f = &db[j];
                if !f.missing && f.size == disk[i].size as i64 && f.mtime == disk[i].mtime {
                    FileState::Unchanged(f.id)
                } else {
                    FileState::Changed(f.id)
                }
            },
            None => {
                proof {
                    if let Some(j2) = last_rel(db@, rel@, db.len() as int) {
                        assert(keys[j2] == rel@);
                        assert(all.contains(j2));
                        assert(b@.contains(j2 as usize));
                        let u2 = choose|u2: int| 0 <= u2 < b.len() && b@[u2] == j2 as usize;
                        assert(keys[b@[u2] as int] == rel@);
                    }
                }
                FileState::New
            },
        };
        r.push(st);
        i = i + 1;
    }
    r
}

/// Whether each row's path is gone from disk.
fn vanished_rows(disk: &Vec<DiskEntry>, db: &Vec<DbEntry>) -> (r: Vec<bool>)
    ensures
        r.len() == db.len(),
        forall|j: int| 0 <= j < db.len() ==> #[trigger] r@[j] == vanished(disk@, db@, j),
{
    let rels = disk_rels(disk);
    let ghost keys = views(rels@);
    let ghost all = Set::new(|x: int| 0 <= x < disk.len());
    let idx = index_all(&rels);
    let mut r: Vec<bool> = Vec::new();
    let mut j: usize = 0;
    while j < db.len()
        invariant
            j <= db.len(),
            r.len() == j,
            keys == views(rels@),
            rels.len() == disk.len(),
            forall|i: int| 0 <= i < disk.len() ==> (#[trigger] rels@[i])@ == disk@[i].rel@,
            all == Set::new(|x: int| 0 <= x < disk.len()),
            index_inv(idx, keys, all),
            forall|k: int| 0 <= k < j ==> #[trigger] r@[k] == vanished(disk@, db@, k),
        decreases db.len() - j,
    {
        let rel = text::chars_of(db[j].rel.as_str());
        let b = idx.bucket(hash_chars(&rel), Ghost(keys), Ghost(all));
        let mut hit = false;
        let mut t: usize = 0;
        while t < b.len()
            invariant
                t <= b.len(),
                keys == views(rels@),
                rels.len() == disk.len(),
                forall|u: int| 0 <= u < b.len() ==> (#[trigger] b@[u] as int) < disk.len(),
                hit ==> exists|u: int| 0 <= u < b.len() && (#[trigger] keys[b@[u] as int]) == rel@,
                !hit ==> forall|u: int| 0 <= u < t ==> (#[trigger] keys[b@[u] as int]) != rel@,
            decreases b.len() - t,
        {
            let i = b[t];
            assert(keys[i as int] == rels@[i as int]@);
            if text::eq_chars(&rels[i], &rel) {
                hit = true;
            }
            t = t + 1;
        }
        proof {
            if hit {
                let u = choose|u: int| 0 <= u < b.len() && (#[trigger] keys[b@[u] as int]) == rel@;
                let i = b@[u] as int;
                assert(disk@[i].rel@ == db@[j as int].rel@);
                assert(on_disk(disk@, db@[j as int].rel@));
            } else {
                assert forall|i: int| 0 <= i < disk.len() implies (#[trigger] disk@[i]).rel@ != db@[j as int].rel@ by {
                    if disk@[i].rel@ == db@[j as int].rel@ {
                        assert(keys[i] == rel@);
                        assert(all.contains(i));
                        assert(b@.contains(i as usize));
                        let u = choose|u: int| 0 <= u < b.len() && b@[u] == i as usize;
                        assert(keys[b@[u] as int] == rel@);
                    }
                }
            }
        }
        r.push(!hit);
        j = j + 1;
    }
    r
}

/// The last file before `n` that moved and keeps row id `id` (-1 when none).
pub open spec fn last_mover(disk: Seq<DiskEntry>, db: Seq<DbEntry>, id: i64, n: int) -> int
    decreases n,
{
    if n <= 0 {
        -1
    } else if state_of(disk, db, n - 1) == FileState::Moved(id) {
        n - 1
    } else {
        last_mover(disk, db, id, n - 1)
    }
}

proof fn lemma_last_mover(disk: Seq<DiskEntry>, db: Seq<DbEntry>, id: i64, n: int)
    requires
        0 <= n <= disk.len(),
    ensures
        last_mover(disk, db, id, n) >= 0 ==> last_mover(disk, db, id, n) < n && state_of(
            disk,
            db,
            last_mover(disk, db, id, n),
        ) == FileState::Moved(id),
        last_mover(disk, db, id, n) < 0 ==> forall|i: int| 0 <= i < n ==> state_of(disk, db, i) != FileState::Moved(id),
        last_mover(disk, db, id, n) >= -1,
    decreases n,
{
    if n > 0 {
        lemma_last_mover(disk, db, id, n - 1);
    }
}

fn opt_i64_eq(a: Option<i64>, b: Option<i64>) -> (r: bool)
    ensures
        r == (a == b),
{
    match (a, b) {
        (Some(x), Some(y)) => x == y,
        (None, None) => true,
        _ => false,
    }
}

/// The final state of every file, and for each row id that files moved into, the row of the
/// last file that did.
fn resolve_moves(
    disk: &Vec<DiskEntry>,
    db: &Vec<DbEntry>,
    base: &Vec<FileState>,
    van: &Vec<bool>,
) -> (r: (Vec<FileState>, HashMap<i64, usize>))
    requires
        base.len() == disk.len(),
        forall|i: int| 0 <= i < disk.len() ==> #[trigger] base@[i] == base_state(disk@[i], db@),
        van.len() == db.len(),
        forall|j: int| 0 <= j < db.len() ==> #[trigger] van@[j] == vanished(disk@, db@, j),
    ensures
        r.0.len() == disk.len(),
        forall|i: int| 0 <= i < disk.len() ==> #[trigger] r.0@[i] == state_of(disk@, db@, i),
        forall|id: i64|
            #![trigger r.1@.contains_key(id)]
            r.1@.contains_key(id) <==> last_mover(disk@, db@, id, disk.len() as int) >= 0,
        forall|id: i64|
            #![trigger r.1@[id]]
            r.1@.contains_key(id) ==> r.1@[id] as int == moved_row(disk@, db@, last_mover(disk@, db@, id, disk.len() as int))
                && (r.1@[id] as int) < db.len(),
{
    broadcast use vstd::std_specs::hash::group_hash_axioms;
    let ghost dv = disk@;
    let ghost bv = db@;
    let names = db_strs(db, true);
    let ghost nkeys = views(names@);
    // The vanished rows, by name.
    let mut vidx = StrIndex::new();
    let ghost mut vset: Set<int> = Set::empty();
    let mut j: usize = 0;
    while j < db.len()
        invariant
            j <= db.len(),
            names.len() == db.len(),
            nkeys == views(names@),
            index_inv(vidx, nkeys, vset),
            forall|x: int| #[trigger] vset.contains(x) <==> 0 <= x < j && vanished(dv, bv, x),
            van.len() == db.len(),
            forall|x: int| 0 <= x < db.len() ==> #[trigger] van@[x] == vanished(dv, bv, x),
            dv == disk@,
            bv == db@,
        decreases db.len() - j,
    {
        if van[j] {
            vidx.add(&names, j, Ghost(vset));
            proof {
                vset = vset.insert(j as int);
            }
        }
        j = j + 1;
    }
    let dnames = disk_names(disk);
    let ghost dkeys = views(dnames@);
    let mut nidx = StrIndex::new();
    let ghost mut nset: Set<int> = Set::empty();
    let mut states: Vec<FileState> = Vec::new();
    let mut moved_from: HashMap<i64, usize> = HashMap::new();
    let mut i: usize = 0;
    while i < disk.len()
        invariant
            i <= disk.len(),
            states.len() == i,
            dv == disk@,
            bv == db@,
            names.len() == db.len(),
            nkeys == views(names@),
            forall|x: int| 0 <= x < db.len() ==> (#[trigger] names@[x])@ == db@[x].name@,
            index_inv(vidx, nkeys, vset),
            forall|x: int| #[trigger] vset.contains(x) <==> 0 <= x < db.len() && vanished(dv, bv, x),
            dnames.len() == disk.len(),
            dkeys == views(dnames@),
            forall|x: int| 0 <= x < disk.len() ==> (#[trigger] dnames@[x])@ == disk@[x].name@,
            index_inv(nidx, dkeys, nset),
            forall|x: int| #[trigger] nset.contains(x) <==> 0 <= x < i && base_state(dv[x], bv) == FileState::New,
            base.len() == disk.len(),
            forall|x: int| 0 <= x < disk.len() ==> #[trigger] base@[x] == base_state(disk@[x], db@),
            forall|k: int| 0 <= k < i ==> #[trigger] states@[k] == state_of(dv, bv, k),
            forall|id: i64|
                #![trigger moved_from@.contains_key(id)]
                moved_from@.contains_key(id) <==> last_mover(dv, bv, id, i as int) >= 0,
            forall|id: i64|
                #![trigger moved_from@[id]]
                moved_from@.contains_key(id) ==> moved_from@[id] as int == moved_row(dv, bv, last_mover(dv, bv, id, i as int))
                    && (moved_from@[id] as int) < db.len(),
        decreases disk.len() - i,
    {
        let st = if base[i] == FileState::New {
            let h = hash_chars(&dnames[i]);
            assert(dkeys[i as int] == disk@[i as int].name@);
            // Vanished rows with this file's key.
            let b = vidx.bucket(h, Ghost(nkeys), Ghost(vset));
            let mut count: usize = 0;
            let mut first: usize = 0;
            let mut t: usize = 0;
            while t < b.len()
                invariant
                    t <= b.len(),
                    count <= 2,
                    i < disk.len(),
                    dnames.len() == disk.len(),
                    forall|x: int| 0 <= x < disk.len() ==> (#[trigger] dnames@[x])@ == disk@[x].name@,
                    names.len() == db.len(),
                    nkeys == views(names@),
                    forall|x: int| 0 <= x < db.len() ==> (#[trigger] names@[x])@ == db@[x].name@,
                    forall|u: int| 0 <= u < b.len() ==> vset.contains(#[trigger] b@[u] as int),
                    forall|x: int| #[trigger] vset.contains(x) <==> 0 <= x < db.len() && vanished(dv, bv, x),
                    dv == disk@,
                    bv == db@,
                    count == 0 ==> forall|u: int| 0 <= u < t ==> row_key(#[trigger] db@[b@[u] as int]) != disk_key(disk@[i as int]),
                    count >= 1 ==> first < t && row_key(db@[b@[first as int] as int]) == disk_key(disk@[i as int]),
                    count == 1 ==> forall|u: int| 0 <= u < t && u != first ==> row_key(#[trigger] db@[b@[u] as int]) != disk_key(disk@[i as int]),
                    count >= 2 ==> exists|u: int| 0 <= u < t && u != first && row_key(#[trigger] db@[b@[u] as int]) == disk_key(disk@[i as int]),
                decreases b.len() - t,
            {
                let x = b[t];
                assert(vset.contains(x as int));
                let same = text::eq_chars(&names[x], &dnames[i]) && db[x].size == disk[i].size as i64
                    && opt_i64_eq(db[x].mtime, disk[i].mtime);
                assert(same == (row_key(db@[x as int]) == disk_key(disk@[i as int])));
                if same {
                    if count == 0 {
                        first = t;
                        count = 1;
                    } else {
                        count = 2;
                    }
                }
                t = t + 1;
            }
            // Earlier new files with this key.
            let nb = nidx.bucket(h, Ghost(dkeys), Ghost(nset));
            let mut earlier = false;
            let mut t2: usize = 0;
            while t2 < nb.len()
                invariant
                    t2 <= nb.len(),
                    dnames.len() == disk.len(),
                    forall|x: int| 0 <= x < disk.len() ==> (#[trigger] dnames@[x])@ == disk@[x].name@,
                    forall|u: int| 0 <= u < nb.len() ==> nset.contains(#[trigger] nb@[u] as int),
                    forall|x: int| #[trigger] nset.contains(x) <==> 0 <= x < i && base_state(dv[x], bv) == FileState::New,
                    dv == disk@,
                    i < disk.len(),
                    earlier ==> new_before(dv, bv, i as int),
                    !earlier ==> forall|u: int| 0 <= u < t2 ==> disk_key(#[trigger] dv[nb@[u] as int]) != disk_key(dv[i as int]),
                decreases nb.len() - t2,
            {
                let x = nb[t2];
                assert(nset.contains(x as int));
                let same = text::eq_chars(&dnames[x], &dnames[i]) && disk[x].size as i64 == disk[i].size as i64
                    && opt_i64_eq(disk[x].mtime, disk[i].mtime);
                assert(same == (disk_key(dv[x as int]) == disk_key(dv[i as int])));
                if same {
                    earlier = true;
                }
                t2 = t2 + 1;
            }
            proof {
                let k = disk_key(dv[i as int]);
                if !earlier {
                    assert forall|i2: int| 0 <= i2 < i && #[trigger] base_state(dv[i2], bv) == FileState::New implies disk_key(dv[i2])
                        != disk_key(dv[i as int]) by {
                        if disk_key(dv[i2]) == disk_key(dv[i as int]) {
                            assert(nset.contains(i2));
                            assert(dkeys[i2] == dkeys[i as int]);
                            assert(nb@.contains(i2 as usize));
                            let u = choose|u: int| 0 <= u < nb.len() && nb@[u] == i2 as usize;
                            assert(disk_key(dv[nb@[u] as int]) != disk_key(dv[i as int]));
                        }
                    }
                    assert(!new_before(dv, bv, i as int));
                }
                // Candidates are all in the bucket.
                assert forall|j2: int| #[trigger] candidate(dv, bv, k, j2) implies exists|u: int|
                    0 <= u < b.len() && b@[u] as int == j2 by {
                    assert(vset.contains(j2));
                    assert(nkeys[j2] == db@[j2].name@);
                    assert(str_hash(nkeys[j2]) == h);
                    assert(b@.contains(j2 as usize));
                }
                if count == 1 {
                    let jj = b@[first as int] as int;
                    assert(candidate(dv, bv, k, jj));
                    assert forall|j2: int| #[trigger] candidate(dv, bv, k, j2) implies j2 == jj by {
                        let u = choose|u: int| 0 <= u < b.len() && b@[u] as int == j2;
                        assert(row_key(db@[b@[u] as int]) == k);
                    }
                    assert(sole_candidate(dv, bv, k, jj));
                } else if count == 0 {
                    assert forall|j2: int| !sole_candidate(dv, bv, k, j2) by {
                        if candidate(dv, bv, k, j2) {
                            let u = choose|u: int| 0 <= u < b.len() && b@[u] as int == j2;
                            assert(row_key(db@[b@[u] as int]) == k);
                        }
                    }
                } else {
                    let u2 = choose|u: int| 0 <= u < t && u != first && row_key(#[trigger] db@[b@[u] as int]) == k;
                    let ja = b@[first as int] as int;
                    let jb = b@[u2] as int;
                    assert(candidate(dv, bv, k, ja) && candidate(dv, bv, k, jb));
                    if u2 < first {
                        assert(b@[u2] < b@[first as int]);
                    } else {
                        assert(b@[first as int] < b@[u2]);
                    }
                    assert forall|j2: int| !sole_candidate(dv, bv, k, j2) by {
                        if sole_candidate(dv, bv, k, j2) {
                            assert(ja == j2 && jb == j2);
                        }
                    }
                }
            }
            nidx.add(&dnames, i, Ghost(nset));
            proof {
                nset = nset.insert(i as int);
            }
            if count == 1 && !earlier {
                let x = b[first];
                let id = db[x].id;
                proof {
                    assert(moves(dv, bv, i as int));
                    assert(sole_candidate(dv, bv, disk_key(dv[i as int]), x as int));
                    assert(moved_row(dv, bv, i as int) == x as int);
                }
                moved_from.insert(id, x);
                FileState::Moved(id)
            } else {
                FileState::New
            }
        } else {
            proof {
                if nset.contains(i as int) {
                    assert(false);
                }
            }
            base[i]
        };
        proof {
            assert(st == state_of(dv, bv, i as int));
            assert(forall|x: int| #[trigger] nset.contains(x) <==> 0 <= x < i + 1 && base_state(dv[x], bv) == FileState::New);
        }
        let ghost old_map = moved_from@;
        states.push(st);
        proof {
            assert forall|id: i64| #![trigger last_mover(dv, bv, id, i + 1)]
                last_mover(dv, bv, id, i + 1) == if st == FileState::Moved(id) { i as int } else { last_mover(dv, bv, id, i as int) } by {}
        }
        i = i + 1;
    }
    (states, moved_from)
}

fn disk_names(disk: &Vec<DiskEntry>) -> (r: Vec<Vec<char>>)
    ensures
        r.len() == disk.len(),
        forall|i: int| 0 <= i < disk.len() ==> (#[trigger] r@[i])@ == disk@[i].name@,
{
    let mut r: Vec<Vec<char>> = Vec::new();
    let mut i: usize = 0;
    while i < disk.len()
        invariant
            i <= disk.len(),
            r.len() == i,
            forall|k: int| 0 <= k < i ==> (#[trigger] r@[k])@ == disk@[k].name@,
        decreases disk.len() - i,
    {
        r.push(text::chars_of(disk[i].name.as_str()));
        i = i + 1;
    }
    r
}

/// Row `j` vanished, was not flagged missing before, and no file moved into it: it is gone.
pub open spec fn gone(disk: Seq<DiskEntry>, db: Seq<DbEntry>, j: int) -> bool {
    &&& vanished(disk, db, j)
    &&& !db[j].missing
    &&& forall|i: int| 0 <= i < disk.len() ==> #[trigger] state_of(disk, db, i) != FileState::Moved(db[j].id)
}

/// The row a file that moved into row id `id` came from: that of the last file that did.
pub open spec fn origin_of(disk: Seq<DiskEntry>, db: Seq<DbEntry>, id: i64) -> int {
    moved_row(disk, db, last_mover(disk, db, id, disk.len() as int))
}

/// The directory of a file that changed state, or that a file moved from.
pub open spec fn touched_by_file(disk: Seq<DiskEntry>, db: Seq<DbEntry>, i: int, dir: Seq<char>) -> bool {
    ||| !(state_of(disk, db, i) is Unchanged) && parent(disk[i].rel@) == dir
    ||| state_of(disk, db, i) matches FileState::Moved(id) && parent(db[origin_of(disk, db, id)].rel@) == dir
}

/// `dir` holds a new, changed, moved or gone file, or one that moved away.
pub open spec fn dirty_dir(disk: Seq<DiskEntry>, db: Seq<DbEntry>, dir: Seq<char>) -> bool {
    ||| exists|i: int| 0 <= i < disk.len() && #[trigger] touched_by_file(disk, db, i, dir)
    ||| exists|j: int| 0 <= j < db.len() && #[trigger] gone(disk, db, j) && parent(db[j].rel@) == dir
}

/// How many states are (unchanged, changed, new, moved).
pub open spec fn tally(states: Seq<FileState>) -> (nat, nat, nat, nat)
    decreases states.len(),
{
    if states.len() == 0 {
        (0, 0, 0, 0)
    } else {
        let (u, c, n, m) = tally(states.drop_last());
        match states.last() {
            FileState::Unchanged(_) => (u + 1, c, n, m),
            FileState::Changed(_) => (u, c + 1, n, m),
            FileState::New => (u, c, n + 1, m),
            FileState::Moved(_) => (u, c, n, m + 1),
        }
    }
}

proof fn lemma_tally_bound(states: Seq<FileState>)
    ensures
        tally(states).0 + tally(states).1 + tally(states).2 + tally(states).3 == states.len(),
    decreases states.len(),
{
    if states.len() > 0 {
        lemma_tally_bound(states.drop_last());
    }
}

/// `s` added to `list` unless it is already there.
fn add_unique(list: &mut Vec<Vec<char>>, idx: &mut StrIndex, s: Vec<char>)
    requires
        index_inv(*old(idx), views(old(list)@), Set::new(|x: int| 0 <= x < old(list).len())),
    ensures
        index_inv(*final(idx), views(final(list)@), Set::new(|x: int| 0 <= x < final(list).len())),
        views(final(list)@) == if views(old(list)@).contains(s@) {
            views(old(list)@)
        } else {
            views(old(list)@).push(s@)
        },
{
    let ghost keys = views(list@);
    let ghost all = Set::new(|x: int| 0 <= x < list.len());
    let h = hash_chars(&s);
    let b = idx.bucket(h, Ghost(keys), Ghost(all));
    let mut t: usize = 0;
    let mut found = false;
    while t < b.len()
        invariant
            t <= b.len(),
            keys == views(list@),
            forall|u: int| 0 <= u < b.len() ==> all.contains(#[trigger] b@[u] as int),
            all == Set::new(|x: int| 0 <= x < list.len()),
            found ==> keys.contains(s@),
            !found ==> forall|u: int| 0 <= u < t ==> keys[#[trigger] b@[u] as int] != s@,
        decreases b.len() - t,
    {
        let x = b[t];
        assert(all.contains(x as int));
        assert(keys[x as int] == list@[x as int]@);
        if text::eq_chars(&list[x], &s) {
            found = true;
        }
        t = t + 1;
    }
    if !found {
        proof {
            assert forall|x: int| 0 <= x < keys.len() implies keys[x] != s@ by {
                if keys[x] == s@ {
                    assert(all.contains(x));
                    assert(b@.contains(x as usize));
                    let u = choose|u: int| 0 <= u < b.len() && b@[u] == x as usize;
                    assert(keys[b@[u] as int] != s@);
                }
            }
        }
        let n = list.len();
        list.push(s);
        proof {
            assert(views(list@) =~= keys.push(list@[n as int]@));
            assert forall|x: int| #[trigger] all.contains(x) implies x < n by {}
        }
        idx.add(list, n, Ghost(all));
        assert(all.insert(n as int) =~= Set::new(|x: int| 0 <= x < list.len()));
        proof {
            assert forall|m: int| #[trigger] all.contains(m) implies views(list@)[m] == keys[m] by {}
            assert(index_inv(*idx, views(list@), Set::new(|x: int| 0 <= x < list.len())));
        }
    }
}

/// The outcome of comparing a root's files on disk with its catalog rows.
#[derive(Clone, Debug)]
pub struct RootDiff {
    /// One per file on disk, in order.
    pub states: Vec<FileState>,
    /// The positions of the rows that are gone, in order.
    pub gone: Vec<usize>,
    /// Each directory that needs regrouping, once.
    pub dirty: Vec<String>,
    pub unchanged: usize,
    pub changed: usize,
    pub added: usize,
    pub moved: usize,
    /// Rows newly gone.
    pub missing: usize,
}

pub open spec fn strings(v: Seq<String>) -> Seq<Seq<char>> {
    v.map_values(|s: String| s@)
}

/// Compare the files found on disk under a root with the catalog's rows for it.
pub fn diff_root(disk: &Vec<DiskEntry>, db: &Vec<DbEntry>) -> (r: RootDiff)
    ensures
        r.states.len() == disk.len(),
        forall|i: int| 0 <= i < disk.len() ==> #[trigger] r.states@[i] == state_of(disk@, db@, i),
        forall|k: int| 0 <= k < r.gone.len() ==> (#[trigger] r.gone@[k] as int) < db.len() && gone(disk@, db@, r.gone@[k] as int),
        forall|j: int| 0 <= j < db.len() && #[trigger] gone(disk@, db@, j) ==> r.gone@.contains(j as usize),
        forall|a: int, b: int| 0 <= a < b < r.gone.len() ==> #[trigger] r.gone@[a] < #[trigger] r.gone@[b],
        strings(r.dirty@).no_duplicates(),
        forall|dir: Seq<char>| #[trigger] strings(r.dirty@).contains(dir) <==> dirty_dir(disk@, db@, dir),
        (r.unchanged as nat, r.changed as nat, r.added as nat, r.moved as nat) == tally(r.states@),
        r.missing == r.gone.len(),
{
    broadcast use vstd::std_specs::hash::group_hash_axioms;
    let ghost dv = disk@;
    let ghost bv = db@;
    let base = base_states(disk, db);
    let van = vanished_rows(disk, db);
    let (states, moved_from) = resolve_moves(disk, db, &base, &van);
    // Gone rows.
    let mut gone_rows: Vec<usize> = Vec::new();
    let mut j: usize = 0;
    while j < db.len()
        invariant
            j <= db.len(),
            dv == disk@,
            bv == db@,
            van.len() == db.len(),
            forall|x: int| 0 <= x < db.len() ==> #[trigger] van@[x] == vanished(dv, bv, x),
            forall|id: i64|
                #![trigger moved_from@.contains_key(id)]
                moved_from@.contains_key(id) <==> last_mover(dv, bv, id, disk.len() as int) >= 0,
            forall|k: int| 0 <= k < gone_rows.len() ==> (#[trigger] gone_rows@[k] as int) < j && gone(dv, bv, gone_rows@[k] as int),
            forall|x: int| 0 <= x < j && #[trigger] gone(dv, bv, x) ==> gone_rows@.contains(x as usize),
            forall|a: int, b: int| 0 <= a < b < gone_rows.len() ==> #[trigger] gone_rows@[a] < #[trigger] gone_rows@[b],
        decreases db.len() - j,
    {
        let moved_in = moved_from.contains_key(&db[j].id);
        proof {
            lemma_last_mover(dv, bv, db@[j as int].id, disk.len() as int);
            if !moved_in {
                assert(last_mover(dv, bv, db@[j as int].id, disk.len() as int) < 0);
            } else {
                let i = last_mover(dv, bv, db@[j as int].id, disk.len() as int);
                assert(state_of(dv, bv, i) == FileState::Moved(db@[j as int].id));
            }
        }
        let ghost prev = gone_rows@;
        if van[j] && !db[j].missing && !moved_in {
            gone_rows.push(j);
            proof {
                assert forall|x: int| 0 <= x < j && #[trigger] gone(dv, bv, x) implies gone_rows@.contains(x as usize) by {
                    let y = choose|y: int| 0 <= y < prev.len() && prev[y] == x as usize;
                    assert(gone_rows@[y] == x as usize);
                }
                assert(gone_rows@[gone_rows.len() - 1] == j);
            }
        }
        j = j + 1;
    }
    // Dirty directories.
    let mut dirs: Vec<Vec<char>> = Vec::new();
    let mut didx = StrIndex::new();
    assert(Set::new(|x: int| 0 <= x < 0int) =~= Set::<int>::empty());
    let mut i: usize = 0;
    while i < disk.len()
        invariant
            i <= disk.len(),
            dv == disk@,
            bv == db@,
            states.len() == disk.len(),
            forall|x: int| 0 <= x < disk.len() ==> #[trigger] states@[x] == state_of(dv, bv, x),
            forall|id: i64|
                #![trigger moved_from@.contains_key(id)]
                moved_from@.contains_key(id) <==> last_mover(dv, bv, id, disk.len() as int) >= 0,
            forall|id: i64|
                #![trigger moved_from@[id]]
                moved_from@.contains_key(id) ==> moved_from@[id] as int == origin_of(dv, bv, id) && (moved_from@[id] as int)
                    < db.len(),
            index_inv(didx, views(dirs@), Set::new(|x: int| 0 <= x < dirs.len())),
            views(dirs@).no_duplicates(),
            forall|dir: Seq<char>|
                #[trigger] views(dirs@).contains(dir) <==> exists|x: int| 0 <= x < i && #[trigger] touched_by_file(dv, bv, x, dir),
        decreases disk.len() - i,
    {
        let ghost before = views(dirs@);
        let st = states[i];
        let ghost mut s1: Seq<char> = seq![];
        match st {
            FileState::Unchanged(_) => {},
            _ => {
                let d = paths::parent_of(&text::chars_of(disk[i].rel.as_str()));
                proof {
                    s1 = d@;
                }
                add_unique(&mut dirs, &mut didx, d);
                proof {
                    lemma_added(before, s1, views(dirs@));
                }
            },
        }
        let ghost mid = views(dirs@);
        let ghost mut s2: Seq<char> = seq![];
        match st {
            FileState::Moved(id) => {
                proof {
                    lemma_last_mover(dv, bv, id, disk.len() as int);
                }
                assert(moved_from@.contains_key(id));
                match moved_from.get(&id) {
                    Some(from) => {
                        let d = paths::parent_of(&text::chars_of(db[*from].rel.as_str()));
                        proof {
                            s2 = d@;
                        }
                        add_unique(&mut dirs, &mut didx, d);
                        proof {
                            lemma_added(mid, s2, views(dirs@));
                        }
                    },
                    None => {},
                }
            },
            _ => {},
        }
        proof {
            assert(!(st is Unchanged) ==> s1 == parent(dv[i as int].rel@));
            assert(st matches FileState::Moved(id) ==> s2 == parent(bv[origin_of(dv, bv, id)].rel@));
            assert(forall|d: Seq<char>| #[trigger] mid.contains(d) <==> before.contains(d) || (!(st is Unchanged) && d == s1));
            assert(forall|d: Seq<char>| #[trigger] views(dirs@).contains(d) <==> mid.contains(d) || (st is Moved && d == s2));
            assert forall|dir: Seq<char>| #[trigger] views(dirs@).contains(dir) <==> exists|x: int|
                0 <= x < i + 1 && #[trigger] touched_by_file(dv, bv, x, dir) by {
                if views(dirs@).contains(dir) {
                    if !before.contains(dir) {
                        assert(touched_by_file(dv, bv, i as int, dir));
                    } else {
                        let x = choose|x: int| 0 <= x < i && #[trigger] touched_by_file(dv, bv, x, dir);
                        assert(0 <= x < i + 1 && touched_by_file(dv, bv, x, dir));
                    }
                } else {
                    assert forall|x: int| 0 <= x < i + 1 implies !#[trigger] touched_by_file(dv, bv, x, dir) by {
                        if x == i && touched_by_file(dv, bv, x, dir) {
                            assert(mid.contains(dir) || views(dirs@).contains(dir));
                        }
                    }
                }
            }
        }
        i = i + 1;
    }
    let mut k: usize = 0;
    while k < gone_rows.len()
        invariant
            k <= gone_rows.len(),
            dv == disk@,
            bv == db@,
            forall|x: int| 0 <= x < gone_rows.len() ==> (#[trigger] gone_rows@[x] as int) < db.len() && gone(dv, bv, gone_rows@[x] as int),
            forall|x: int| 0 <= x < db.len() && #[trigger] gone(dv, bv, x) ==> gone_rows@.contains(x as usize),
            index_inv(didx, views(dirs@), Set::new(|x: int| 0 <= x < dirs.len())),
            views(dirs@).no_duplicates(),
            forall|dir: Seq<char>|
                #[trigger] views(dirs@).contains(dir) <==> (exists|x: int| 0 <= x < disk.len() && #[trigger] touched_by_file(dv, bv, x, dir))
                    || exists|y: int| 0 <= y < k && parent(bv[#[trigger] gone_rows@[y] as int].rel@) == dir,
        decreases gone_rows.len() - k,
    {
        let ghost before = views(dirs@);
        let jj = gone_rows[k];
        let d = paths::parent_of(&text::chars_of(db[jj].rel.as_str()));
        let ghost s3 = d@;
        add_unique(&mut dirs, &mut didx, d);
        proof {
            lemma_added(before, s3, views(dirs@));
            assert(s3 == parent(bv[gone_rows@[k as int] as int].rel@));
            assert forall|dir: Seq<char>| #[trigger] views(dirs@).contains(dir) <==> (exists|x: int|
                0 <= x < disk.len() && #[trigger] touched_by_file(dv, bv, x, dir)) || exists|y: int|
                0 <= y < k + 1 && parent(bv[#[trigger] gone_rows@[y] as int].rel@) == dir by {
                if exists|y: int| 0 <= y < k + 1 && parent(bv[#[trigger] gone_rows@[y] as int].rel@) == dir {
                    let y = choose|y: int| 0 <= y < k + 1 && parent(bv[#[trigger] gone_rows@[y] as int].rel@) == dir;
                    if y < k {
                        assert(before.contains(dir));
                    }
                }
            }
        }
        k = k + 1;
    }
    proof {
        assert forall|dir: Seq<char>| #[trigger] views(dirs@).contains(dir) <==> dirty_dir(dv, bv, dir) by {
            if exists|y: int| 0 <= y < gone_rows.len() && parent(bv[#[trigger] gone_rows@[y] as int].rel@) == dir {
                let y = choose|y: int| 0 <= y < gone_rows.len() && parent(bv[#[trigger] gone_rows@[y] as int].rel@) == dir;
                assert(gone(dv, bv, gone_rows@[y] as int));
            }
            if exists|jx: int| 0 <= jx < db.len() && #[trigger] gone(dv, bv, jx) && parent(bv[jx].rel@) == dir {
                let jx = choose|jx: int| 0 <= jx < db.len() && #[trigger] gone(dv, bv, jx) && parent(bv[jx].rel@) == dir;
                assert(gone_rows@.contains(jx as usize));
                let y = choose|y: int| 0 <= y < gone_rows.len() && gone_rows@[y] == jx as usize;
                assert(parent(bv[gone_rows@[y] as int].rel@) == dir);
            }
        }
    }
    let mut out: Vec<String> = Vec::new();
    let mut t: usize = 0;
    while t < dirs.len()
        invariant
            t <= dirs.len(),
            strings(out@) == views(dirs@).take(t as int),
        decreases dirs.len() - t,
    {
        let ghost prev = out@;
        out.push(text::string_of(&dirs[t]));
        assert(strings(out@) =~= strings(prev).push(dirs@[t as int]@));
        t = t + 1;
        assert(strings(out@) =~= views(dirs@).take(t as int));
    }
    assert(views(dirs@).take(dirs.len() as int) =~= views(dirs@));
    // Counts.
    let mut unchanged: usize = 0;
    let mut changed: usize = 0;
    let mut added: usize = 0;
    let mut moved: usize = 0;
    let mut q: usize = 0;
    while q < states.len()
        invariant
            q <= states.len(),
            (unchanged as nat, changed as nat, added as nat, moved as nat) == tally(states@.take(q as int)),
            unchanged + changed + added + moved == q,
        decreases states.len() - q,
    {
        proof {
            assert(states@.take(q + 1).drop_last() =~= states@.take(q as int));
            lemma_tally_bound(states@.take(q as int));
        }
        match states[q] {
            FileState::Unchanged(_) => unchanged = unchanged + 1,
            FileState::Changed(_) => changed = changed + 1,
            FileState::New => added = added + 1,
            FileState::Moved(_) => moved = moved + 1,
        }
        q = q + 1;
    }
    assert(states@.take(states.len() as int) =~= states@);
    let missing = gone_rows.len();
    RootDiff { states, gone: gone_rows, dirty: out, unchanged, changed, added, moved, missing }
}

/// What `add_unique` leaves: the list with `s` added unless it was there; duplicates stay out.
proof fn lemma_added(a: Seq<Seq<char>>, s: Seq<char>, b: Seq<Seq<char>>)
    requires
        b == if a.contains(s) {
            a
        } else {
            a.push(s)
        },
    ensures
        forall|d: Seq<char>| #[trigger] b.contains(d) <==> a.contains(d) || d == s,
        a.no_duplicates() ==> b.no_duplicates(),
{
    if !a.contains(s) {
        assert forall|d: Seq<char>| #[trigger] b.contains(d) <==> a.contains(d) || d == s by {
            if a.contains(d) {
                let x = choose|x: int| 0 <= x < a.len() && a[x] == d;
                assert(b[x] == d);
            }
            if b.contains(d) {
                let x = choose|x: int| 0 <= x < b.len() && b[x] == d;
                if x < a.len() {
                    assert(a[x] == d);
                }
            }
            if d == s {
                assert(b[a.len() as int] == s);
            }
        }
        if a.no_duplicates() {
            assert forall|x: int, y: int| 0 <= x < y < b.len() implies b[x] != b[y] by {
                if y == b.len() - 1 {
                    assert(a[x] == b[x]);
                    assert(a.contains(b[x]));
                } else {
                    assert(a[x] == b[x] && a[y] == b[y]);
                }
            }
        }
    }
}

/// The positions below `n` of the files on disk in directory `d`, in order.
pub open spec fn files_in(disk: Seq<DiskEntry>, d: Seq<char>, n: int) -> Seq<int>
    decreases n,
{
    if n <= 0 {
        seq![]
    } else if parent(disk[n - 1].rel@) == d {
        files_in(disk, d, n - 1).push(n - 1)
    } else {
        files_in(disk, d, n - 1)
    }
}

/// The ids of the first `k` gone rows (positions `gone` in `db`) that were in directory `d`,
/// in order.
pub open spec fn gone_in(db: Seq<DbEntry>, gone: Seq<usize>, d: Seq<char>, k: int) -> Seq<i64>
    decreases k,
{
    if k <= 0 {
        seq![]
    } else if parent(db[gone[k - 1] as int].rel@) == d {
        gone_in(db, gone, d, k - 1).push(db[gone[k - 1] as int].id)
    } else {
        gone_in(db, gone, d, k - 1)
    }
}

/// One directory's share of the writing: the files on disk in it, by position, and the ids
/// of the rows gone from it.
#[derive(Clone, Debug)]
pub struct DirBatch {
    pub dir: String,
    pub files: Vec<usize>,
    pub gone: Vec<i64>,
}

pub open spec fn ints(v: Seq<usize>) -> Seq<int> {
    v.map_values(|x: usize| x as int)
}

/// `b` is directory `d`'s batch.
pub open spec fn batch_of(b: DirBatch, disk: Seq<DiskEntry>, db: Seq<DbEntry>, gone: Seq<usize>) -> bool {
    &&& ints(b.files@) == files_in(disk, b.dir@, disk.len() as int)
    &&& b.gone@ == gone_in(db, gone, b.dir@, gone.len() as int)
    &&& (b.files@.len() > 0 || b.gone@.len() > 0)
}

/// The position of `d` among `dirs`, which hold no name twice.
fn slot_of(dirs: &Vec<Vec<char>>, idx: &StrIndex, d: &Vec<char>) -> (r: Option<usize>)
    requires
        views(dirs@).no_duplicates(),
        index_inv(*idx, views(dirs@), Set::new(|x: int| 0 <= x < dirs.len())),
    ensures
        match r {
            Some(t) => t < dirs.len() && dirs@[t as int]@ == d@,
            None => forall|t: int| 0 <= t < dirs.len() ==> (#[trigger] dirs@[t])@ != d@,
        },
{
    let ghost all = Set::new(|x: int| 0 <= x < dirs.len());
    let h = hash_chars(d);
    let b = idx.bucket(h, Ghost(views(dirs@)), Ghost(all));
    let mut u: usize = 0;
    while u < b.len()
        invariant
            u <= b.len(),
            all == Set::new(|x: int| 0 <= x < dirs.len()),
            forall|w: int| 0 <= w < b@.len() ==> all.contains(#[trigger] b@[w] as int),
            forall|w: int| 0 <= w < u ==> dirs@[#[trigger] b@[w] as int]@ != d@,
        decreases b.len() - u,
    {
        let t = b[u];
        assert(all.contains(t as int));
        if text::eq_chars(&dirs[t], d) {
            return Some(t);
        }
        u = u + 1;
    }
    proof {
        assert forall|t: int| 0 <= t < dirs.len() implies (#[trigger] dirs@[t])@ != d@ by {
            if dirs@[t]@ == d@ {
                assert(views(dirs@)[t] == d@);
                assert(all.contains(t));
                assert(b@.contains(t as usize));
            }
        }
    }
    None
}

/// The directories to write, in name order: each dirty directory that holds a file on disk
/// or lost a row, with its files and its gone rows. `dirty` and `gone` are as
/// [`diff_root`] gives them.
/// `d` is one of the first `t` names of `dv`.
pub open spec fn named_in(dv: Seq<Seq<char>>, t: int, d: Seq<char>) -> bool {
    exists|k: int| 0 <= k < t && dv[k] == d
}

pub fn dir_batches(disk: &Vec<DiskEntry>, db: &Vec<DbEntry>, dirty: &Vec<String>, gone: &Vec<usize>) -> (r: Vec<DirBatch>)
    requires
        strings(dirty@).no_duplicates(),
        forall|k: int| 0 <= k < gone.len() ==> (#[trigger] gone@[k] as int) < db.len(),
    ensures
        forall|a: int, b: int| 0 <= a < b < r.len() ==> lex_lt(#[trigger] r@[a].dir@, #[trigger] r@[b].dir@),
        forall|a: int|
            0 <= a < r.len() ==> strings(dirty@).contains((#[trigger] r@[a]).dir@) && batch_of(r@[a], disk@, db@, gone@),
        forall|t: int|
            0 <= t < dirty.len() && (files_in(disk@, (#[trigger] dirty@[t])@, disk.len() as int).len() > 0 || gone_in(
                db@,
                gone@,
                dirty@[t]@,
                gone.len() as int,
            ).len() > 0) ==> exists|a: int| 0 <= a < r.len() && r@[a].dir@ == dirty@[t]@,
{
    let mut dirs: Vec<Vec<char>> = Vec::new();
    let mut i: usize = 0;
    while i < dirty.len()
        invariant
            i <= dirty.len(),
            dirs.len() == i,
            forall|k: int| 0 <= k < i ==> (#[trigger] dirs@[k])@ == dirty@[k]@,
        decreases dirty.len() - i,
    {
        dirs.push(text::chars_of(dirty[i].as_str()));
        i = i + 1;
    }
    assert(views(dirs@) =~= strings(dirty@));
    let idx = index_all(&dirs);
    let ghost dv = views(dirs@);
    // Files on disk, by directory.
    let mut fl: Vec<Vec<usize>> = Vec::new();
    let mut gl: Vec<Vec<i64>> = Vec::new();
    let mut t: usize = 0;
    while t < dirs.len()
        invariant
            t <= dirs.len(),
            fl.len() == t,
            gl.len() == t,
            forall|k: int| 0 <= k < t ==> (#[trigger] fl@[k])@.len() == 0 && gl@[k]@.len() == 0,
        decreases dirs.len() - t,
    {
        fl.push(Vec::new());
        gl.push(Vec::new());
        t = t + 1;
    }
    assert forall|k: int| 0 <= k < dirs.len() implies ints((#[trigger] fl@[k])@) == files_in(disk@, dirs@[k]@, 0) by {
        assert(ints(fl@[k]@) =~= Seq::<int>::empty());
    }
    assert forall|k: int| 0 <= k < dirs.len() implies (#[trigger] gl@[k])@.len() == 0 by {
        assert(fl@[k]@.len() == 0);
    }
    let mut i: usize = 0;
    while i < disk.len()
        invariant
            i <= disk.len(),
            dv == views(dirs@),
            dv.no_duplicates(),
            index_inv(idx, dv, Set::new(|x: int| 0 <= x < dirs.len())),
            fl.len() == dirs.len(),
            gl.len() == dirs.len(),
            forall|k: int| 0 <= k < dirs.len() ==> (#[trigger] gl@[k])@.len() == 0,
            forall|k: int| 0 <= k < dirs.len() ==> ints((#[trigger] fl@[k])@) == files_in(disk@, dirs@[k]@, i as int),
        decreases disk.len() - i,
    {
        let d = paths::parent_of(&text::chars_of(disk[i].rel.as_str()));
        let ghost before = fl@;
        match slot_of(&dirs, &idx, &d) {
            Some(k) => {
                let mut v = fl.remove(k);
                v.push(i);
                fl.insert(k, v);
                proof {
                    assert forall|m: int| 0 <= m < dirs.len() implies ints((#[trigger] fl@[m])@) == files_in(disk@, dirs@[m]@, i + 1) by {
                        if m == k {
                            assert(ints(fl@[m]@) =~= ints(before[m]@).push(i as int));
                        } else {
                            assert(fl@[m] == before[m]);
                            assert(dirs@[m]@ != d@) by {
                                if dirs@[m]@ == d@ {
                                    assert(dv[m] == dv[k as int]);
                                }
                            }
                        }
                    }
                }
            },
            None => {},
        }
        i = i + 1;
    }
    assert forall|k: int| 0 <= k < dirs.len() implies (#[trigger] gl@[k])@ == gone_in(db@, gone@, dirs@[k]@, 0) by {
        assert(gl@[k]@ =~= Seq::<i64>::empty());
    }
    let mut q: usize = 0;
    while q < gone.len()
        invariant
            q <= gone.len(),
            forall|k: int| 0 <= k < gone.len() ==> (#[trigger] gone@[k] as int) < db.len(),
            dv == views(dirs@),
            dv.no_duplicates(),
            index_inv(idx, dv, Set::new(|x: int| 0 <= x < dirs.len())),
            gl.len() == dirs.len(),
            forall|k: int| 0 <= k < dirs.len() ==> (#[trigger] gl@[k])@ == gone_in(db@, gone@, dirs@[k]@, q as int),
        decreases gone.len() - q,
    {
        let j = gone[q];
        let d = paths::parent_of(&text::chars_of(db[j].rel.as_str()));
        let ghost before = gl@;
        match slot_of(&dirs, &idx, &d) {
            Some(k) => {
                let mut v = gl.remove(k);
                v.push(db[j].id);
                gl.insert(k, v);
                proof {
                    assert forall|m: int| 0 <= m < dirs.len() implies (#[trigger] gl@[m])@ == gone_in(db@, gone@, dirs@[m]@, q + 1) by {
                        if m == k {
                            assert(gl@[m]@ =~= before[m]@.push(db@[j as int].id));
                        } else {
                            assert(gl@[m] == before[m]);
                            assert(dirs@[m]@ != d@) by {
                                if dirs@[m]@ == d@ {
                                    assert(dv[m] == dv[k as int]);
                                }
                            }
                        }
                    }
                }
            },
            None => {},
        }
        q = q + 1;
    }
    // The batches, in name order.
    let mut out: Vec<DirBatch> = Vec::new();
    let mut t: usize = 0;
    while t < dirs.len()
        invariant
            t <= dirs.len(),
            dirs.len() == dirty.len(),
            forall|k: int| 0 <= k < dirs.len() ==> (#[trigger] dirs@[k])@ == dirty@[k]@,
            dv == views(dirs@),
            dv.no_duplicates(),
            forall|k: int| 0 <= k < gone.len() ==> (#[trigger] gone@[k] as int) < db.len(),
            fl.len() == dirs.len(),
            gl.len() == dirs.len(),
            forall|k: int| 0 <= k < dirs.len() ==> ints((#[trigger] fl@[k])@) == files_in(disk@, dirs@[k]@, disk.len() as int),
            forall|k: int| 0 <= k < dirs.len() ==> (#[trigger] gl@[k])@ == gone_in(db@, gone@, dirs@[k]@, gone.len() as int),
            forall|a: int, b: int| 0 <= a < b < out.len() ==> lex_lt(#[trigger] out@[a].dir@, #[trigger] out@[b].dir@),
            forall|a: int| 0 <= a < out.len() ==> named_in(dv, t as int, (#[trigger] out@[a]).dir@),
            forall|a: int| 0 <= a < out.len() ==> #[trigger] batch_of(out@[a], disk@, db@, gone@),
            forall|k: int|
                0 <= k < t && (fl@[k]@.len() > 0 || gl@[k]@.len() > 0) ==> exists|a: int|
                    0 <= a < out.len() && (#[trigger] out@[a]).dir@ == dv[k],
        decreases dirs.len() - t,
    {
        if fl[t].len() > 0 || gl[t].len() > 0 {
            let name = text::string_of(&dirs[t]);
            let files = fl[t].clone();
            let gs = gl[t].clone();
            assert(files@ == fl@[t as int]@);
            assert(gs@ == gl@[t as int]@);
            let ghost dn = dv[t as int];
            assert(name@ == dn);
            // Every batch so far is another directory.
            assert forall|a: int| 0 <= a < out.len() implies (#[trigger] out@[a]).dir@ != dn by {
                assert(named_in(dv, t as int, out@[a].dir@));
                let k = choose|k: int| 0 <= k < t && dv[k] == out@[a].dir@;
                assert(dv[k] != dv[t as int]);
            }
            let mut p: usize = 0;
            while p < out.len() && !lex_less(&dirs[t], &text::chars_of(out[p].dir.as_str()))
                invariant
                    p <= out.len(),
                    t < dirs.len(),
                    dirs@[t as int]@ == dn,
                    forall|a: int| 0 <= a < p ==> lex_lt(#[trigger] out@[a].dir@, dn),
                    forall|a: int| 0 <= a < out.len() ==> (#[trigger] out@[a]).dir@ != dn,
                decreases out.len() - p,
            {
                proof {
                    lemma_lex_total(dn, out@[p as int].dir@);
                }
                p = p + 1;
            }
            let ghost before = out@;
            proof {
                if p < out.len() {
                    assert(lex_lt(dn, out@[p as int].dir@));
                    assert forall|a: int| p <= a < out.len() implies lex_lt(dn, #[trigger] out@[a].dir@) by {
                        if a > p {
                            lemma_lex_trans(dn, out@[p as int].dir@, out@[a].dir@);
                        }
                    }
                }
            }
            out.insert(p, DirBatch { dir: name, files, gone: gs });
            proof {
                assert forall|a: int, b: int| 0 <= a < b < out.len() implies lex_lt(#[trigger] out@[a].dir@, #[trigger] out@[b].dir@) by {
                    if b < p {
                        assert(out@[a] == before[a] && out@[b] == before[b]);
                    } else if b == p {
                        assert(out@[a] == before[a]);
                    } else if a < p {
                        assert(out@[a] == before[a] && out@[b] == before[b - 1]);
                        lemma_lex_trans(before[a].dir@, dn, before[b - 1].dir@);
                    } else if a == p {
                        assert(out@[b] == before[b - 1]);
                    } else {
                        assert(out@[a] == before[a - 1] && out@[b] == before[b - 1]);
                    }
                }
                assert forall|a: int|
                    0 <= a < out.len() implies named_in(dv, t + 1, (#[trigger] out@[a]).dir@) && batch_of(
                    out@[a],
                    disk@,
                    db@,
                    gone@,
                ) by {
                    if a < p {
                        assert(out@[a] == before[a]);
                        assert(named_in(dv, t as int, before[a].dir@));
                        let k = choose|k: int| 0 <= k < t && dv[k] == before[a].dir@;
                        assert(0 <= k < t + 1 && dv[k] == out@[a].dir@);
                    } else if a > p {
                        assert(out@[a] == before[a - 1]);
                        assert(named_in(dv, t as int, before[a - 1].dir@));
                        let k = choose|k: int| 0 <= k < t && dv[k] == before[a - 1].dir@;
                        assert(0 <= k < t + 1 && dv[k] == out@[a].dir@);
                    } else {
                        assert(out@[a].dir@ == dv[t as int]);
                    }
                }
                assert forall|k: int| 0 <= k < t + 1 && (fl@[k]@.len() > 0 || gl@[k]@.len() > 0) implies exists|a: int|
                    0 <= a < out.len() && (#[trigger] out@[a]).dir@ == dv[k] by {
                    if k < t {
                        let a = choose|a: int| 0 <= a < before.len() && (#[trigger] before[a]).dir@ == dv[k];
                        if a < p {
                            assert(out@[a] == before[a]);
                        } else {
                            assert(out@[a + 1] == before[a]);
                        }
                    } else {
                        assert(out@[p as int].dir@ == dv[k]);
                    }
                }
            }
        } else {
            proof {
                assert forall|a: int| 0 <= a < out.len() implies named_in(dv, t + 1, (#[trigger] out@[a]).dir@) by {
                    assert(named_in(dv, t as int, out@[a].dir@));
                    let k = choose|k: int| 0 <= k < t && dv[k] == out@[a].dir@;
                    assert(0 <= k < t + 1 && dv[k] == out@[a].dir@);
                }
            }
        }
        t = t + 1;
    }
    proof {
        assert forall|a: int| 0 <= a < out.len() implies strings(dirty@).contains((#[trigger] out@[a]).dir@) by {
            assert(named_in(dv, t as int, out@[a].dir@));
            let k = choose|k: int| 0 <= k < t && dv[k] == out@[a].dir@;
            assert(strings(dirty@)[k] == dv[k]);
        }
        assert forall|k: int|
            0 <= k < dirty.len() && (files_in(disk@, (#[trigger] dirty@[k])@, disk.len() as int).len() > 0 || gone_in(
                db@,
                gone@,
                dirty@[k]@,
                gone.len() as int,
            ).len() > 0) implies exists|a: int| 0 <= a < out.len() && out@[a].dir@ == dirty@[k]@ by {
            assert(ints(fl@[k]@).len() == fl@[k]@.len());
            let a = choose|a: int| 0 <= a < out.len() && (#[trigger] out@[a]).dir@ == dv[k];
        }
    }
    out
}

} // verus!
