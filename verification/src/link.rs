//! Linking a group of files to a catalog asset: which asset the group joins, whether its
//! primary file takes over as the asset's primary, which other assets may have been left
//! empty and need merging, and which file an asset falls back to when its primary vanished.

use crate::catalog::{kind_from_str, kind_named, primary_rank, rank_of, Role};
use crate::scan::{FileId, Kind};
use vstd::prelude::*;

verus! {

/// A file of one directory, as the catalog knows it.
#[derive(Clone, Debug)]
pub struct LinkFile {
    pub file_id: i64,
    pub name: String,
    pub kind: Kind,
}

/// A file of a group, with what it is to the group's asset.
#[derive(Clone, Copy, Debug, PartialEq, Eq, Structural)]
pub struct Member {
    pub file_id: i64,
    pub role: Role,
    pub kind: Kind,
    pub is_primary: bool,
}

pub open spec fn member_of(f: LinkFile, is_primary: bool) -> Member {
    Member { file_id: f.file_id, role: Role::of_file(f.name@, f.kind, is_primary), kind: f.kind, is_primary }
}

/// The members of the group with primary `primary` and attachments `attachments` (positions
/// in `files`): the primary first, then the attachments in order.
pub fn members_of(files: &Vec<LinkFile>, primary: FileId, attachments: &Vec<FileId>) -> (r: Vec<Member>)
    requires
        (primary.0 as int) < files.len(),
        forall|a: int| 0 <= a < attachments.len() ==> (#[trigger] attachments@[a].0 as int) < files.len(),
    ensures
        r.len() == attachments.len() + 1,
        r@[0] == member_of(files@[primary.0 as int], true),
        forall|a: int| 0 <= a < attachments.len() ==> #[trigger] r@[a + 1] == member_of(files@[attachments@[a].0 as int], false),
{
    let p = &files[primary.0 as usize];
    let mut r: Vec<Member> = Vec::new();
    r.push(Member { file_id: p.file_id, role: Role::for_file(p.name.as_str(), p.kind, true), kind: p.kind, is_primary: true });
    let mut a: usize = 0;
    while a < attachments.len()
        invariant
            a <= attachments.len(),
            r.len() == a + 1,
            r@[0] == member_of(files@[primary.0 as int], true),
            forall|a: int| 0 <= a < attachments.len() ==> (#[trigger] attachments@[a].0 as int) < files.len(),
            forall|x: int| 0 <= x < a ==> #[trigger] r@[x + 1] == member_of(files@[attachments@[x].0 as int], false),
        decreases attachments.len() - a,
    {
        let f = &files[attachments[a].0 as usize];
        r.push(Member { file_id: f.file_id, role: Role::for_file(f.name.as_str(), f.kind, false), kind: f.kind, is_primary: false });
        a = a + 1;
    }
    r
}

/// The smallest asset id among `existing` (file, asset) pairs.
pub open spec fn min_asset(existing: Seq<(i64, i64)>) -> Option<i64>
    decreases existing.len(),
{
    if existing.len() == 0 {
        None
    } else {
        let a = existing.last().1;
        match min_asset(existing.drop_last()) {
            Some(m) => if a < m {
                Some(a)
            } else {
                Some(m)
            },
            None => Some(a),
        }
    }
}

/// The asset a group joins: the primary file's own asset, else the smallest asset any of its
/// files belongs to; `None` when the group needs a new asset.
pub open spec fn target_asset(existing: Seq<(i64, i64)>, primary_file: i64) -> Option<i64> {
    match first_asset_of(existing, primary_file, existing.len() as int) {
        Some(a) => Some(a),
        None => min_asset(existing),
    }
}

/// The asset of the first pair before `n` whose file is `f`.
pub open spec fn first_asset_of(existing: Seq<(i64, i64)>, f: i64, n: int) -> Option<i64>
    decreases n,
{
    if n <= 0 {
        None
    } else {
        match first_asset_of(existing, f, n - 1) {
            Some(a) => Some(a),
            None => if existing[n - 1].0 == f {
                Some(existing[n - 1].1)
            } else {
                None
            },
        }
    }
}

/// `existing` holds the asset each of the group's files already belongs to.
pub fn link_target(existing: &Vec<(i64, i64)>, primary_file: i64) -> (r: Option<i64>)
    ensures
        r == target_asset(existing@, primary_file),
{
    let mut i: usize = 0;
    let mut own: Option<i64> = None;
    let mut least: Option<i64> = None;
    while i < existing.len()
        invariant
            i <= existing.len(),
            own == first_asset_of(existing@, primary_file, i as int),
            least == min_asset(existing@.take(i as int)),
        decreases existing.len() - i,
    {
        assert(existing@.take(i + 1).drop_last() =~= existing@.take(i as int));
        let (f, a) = existing[i];
        if own.is_none() && f == primary_file {
            own = Some(a);
        }
        least = match least {
            Some(m) => if a < m {
                Some(a)
            } else {
                Some(m)
            },
            None => Some(a),
        };
        i = i + 1;
    }
    assert(existing@.take(existing.len() as int) =~= existing@);
    match own {
        Some(a) => Some(a),
        None => least,
    }
}

/// The asset's primary is replaced by the group's primary `p` (of kind `k`) when the asset
/// has none, its primary is missing or part of this same group, or `p` ranks before it
/// (RAW, then image, then video); an unchanged primary is rewritten only when its content
/// changed.
pub open spec fn sets_primary(
    cur: Option<i64>,
    cur_kind: Option<Seq<char>>,
    cur_missing: Option<i64>,
    members: Seq<i64>,
    p: i64,
    k: Kind,
    primary_changed: bool,
) -> bool {
    let cur_in_group = cur matches Some(c) && members.contains(c);
    let cur_rank = match cur_kind {
        Some(s) => rank_of(kind_named(s)),
        None => rank_of(Kind::Other),
    };
    let promote = cur != Some(p) && (cur is None || cur_missing == Some(1i64) || cur_in_group || rank_of(k) < cur_rank);
    promote || (cur == Some(p) && primary_changed)
}

pub fn set_primary_needed(
    cur: Option<i64>,
    cur_kind: &Option<String>,
    cur_missing: Option<i64>,
    members: &Vec<i64>,
    p: i64,
    k: Kind,
    primary_changed: bool,
) -> (r: bool)
    ensures
        r == sets_primary(
            cur,
            match cur_kind {
                Some(s) => Some(s@),
                None => None,
            },
            cur_missing,
            members@,
            p,
            k,
            primary_changed,
        ),
{
    let mut in_group = false;
    match cur {
        Some(c) => {
            let mut i: usize = 0;
            while i < members.len()
                invariant
                    i <= members.len(),
                    in_group <==> exists|x: int| 0 <= x < i && members@[x] == c,
                decreases members.len() - i,
            {
                if members[i] == c {
                    in_group = true;
                }
                i = i + 1;
            }
        },
        None => {},
    }
    let cur_rank = match cur_kind {
        Some(s) => primary_rank(kind_from_str(s.as_str())),
        None => primary_rank(Kind::Other),
    };
    let same = match cur {
        Some(c) => c == p,
        None => false,
    };
    let missing = match cur_missing {
        Some(m) => m == 1,
        None => false,
    };
    let promote = !same && (cur.is_none() || missing || in_group || primary_rank(k) < cur_rank);
    promote || (same && primary_changed)
}

pub open spec fn sorted_unique(v: Seq<i64>) -> bool {
    forall|a: int, b: int| 0 <= a < b < v.len() ==> #[trigger] v[a] < #[trigger] v[b]
}

/// The other assets the group's files belonged to, each once, in increasing order: the ones
/// that may have been left without files.
pub fn merge_candidates(existing: &Vec<(i64, i64)>, asset: i64) -> (r: Vec<i64>)
    ensures
        sorted_unique(r@),
        forall|a: i64| r@.contains(a) <==> a != asset && exists|k: int| 0 <= k < existing.len() && #[trigger] existing@[k].1 == a,
{
    let mut out: Vec<i64> = Vec::new();
    let mut i: usize = 0;
    while i < existing.len()
        invariant
            i <= existing.len(),
            sorted_unique(out@),
            forall|a: i64| out@.contains(a) <==> a != asset && exists|k: int| 0 <= k < i && #[trigger] existing@[k].1 == a,
        decreases existing.len() - i,
    {
        let a = existing[i].1;
        let ghost before = out@;
        if a != asset {
            // Insert `a` in order unless present.
            let mut pos: usize = 0;
            while pos < out.len() && out[pos] < a
                invariant
                    pos <= out.len(),
                    forall|x: int| 0 <= x < pos ==> out@[x] < a,
                decreases out.len() - pos,
            {
                pos = pos + 1;
            }
            if pos < out.len() && out[pos] == a {
                assert(out@[pos as int] == a);
            } else {
                let ghost prev = out@;
                out.insert(pos, a);
                proof {
                    assert(out@ =~= prev.take(pos as int).push(a) + prev.skip(pos as int));
                    assert forall|x: int, y: int| 0 <= x < y < out.len() implies #[trigger] out@[x] < #[trigger] out@[y] by {
                        if y < pos {
                            assert(out@[x] == prev[x] && out@[y] == prev[y]);
                        } else if y == pos {
                            assert(out@[x] == prev[x]);
                        } else if x < pos {
                            assert(out@[x] == prev[x] && out@[y] == prev[y - 1]);
                            if pos < prev.len() {
                                assert(prev[pos as int] > a);
                            }
                        } else if x == pos {
                            assert(out@[y] == prev[y - 1]);
                            assert(prev[pos as int] > a);
                            if y - 1 > pos {
                                assert(prev[pos as int] < prev[y - 1]);
                            }
                        } else {
                            assert(out@[x] == prev[x - 1] && out@[y] == prev[y - 1]);
                        }
                    }
                    assert forall|b: i64| out@.contains(b) <==> prev.contains(b) || b == a by {
                        if prev.contains(b) {
                            let x = choose|x: int| 0 <= x < prev.len() && prev[x] == b;
                            if x < pos {
                                assert(out@[x] == b);
                            } else {
                                assert(out@[x + 1] == b);
                            }
                        }
                        if out@.contains(b) {
                            let x = choose|x: int| 0 <= x < out.len() && out@[x] == b;
                            if x < pos {
                                assert(prev[x] == b);
                            } else if x > pos {
                                assert(prev[x - 1] == b);
                            }
                        }
                        if b == a {
                            assert(out@[pos as int] == a);
                        }
                    }
                }
            }
            assert(forall|b: i64| out@.contains(b) <==> before.contains(b) || b == a);
        }
        proof {
            assert forall|b: i64| out@.contains(b) <==> b != asset && exists|k: int| 0 <= k < i + 1 && #[trigger] existing@[k].1 == b by {
                if exists|k: int| 0 <= k < i + 1 && #[trigger] existing@[k].1 == b {
                    let k = choose|k: int| 0 <= k < i + 1 && #[trigger] existing@[k].1 == b;
                    if k < i {
                        assert(exists|k2: int| 0 <= k2 < i && #[trigger] existing@[k2].1 == b);
                    }
                }
                if b != asset && before.contains(b) {
                    assert(exists|k2: int| 0 <= k2 < i && #[trigger] existing@[k2].1 == b);
                }
            }
        }
        i = i + 1;
    }
    out
}

/// Of the rows `(file, kind)` still present for an asset, the first of the best rank.
pub open spec fn best_row(rows: Seq<(i64, Seq<char>)>, n: int) -> Option<int>
    decreases n,
{
    if n <= 0 {
        None
    } else {
        match best_row(rows, n - 1) {
            Some(b) => if rank_of(kind_named(rows[n - 1].1)) < rank_of(kind_named(rows[b].1)) {
                Some(n - 1)
            } else {
                Some(b)
            },
            None => Some(n - 1),
        }
    }
}

pub open spec fn row_views(rows: Seq<(i64, String)>) -> Seq<(i64, Seq<char>)> {
    rows.map_values(|r: (i64, String)| (r.0, r.1@))
}

/// Which file an asset whose primary vanished falls back to: the first of its remaining
/// files of the best kind.
pub fn best_primary(rows: &Vec<(i64, String)>) -> (r: Option<usize>)
    ensures
        match r {
            Some(b) => best_row(row_views(rows@), rows.len() as int) == Some(b as int),
            None => best_row(row_views(rows@), rows.len() as int) is None,
        },
{
    let ghost rv = row_views(rows@);
    let mut best: Option<usize> = None;
    let mut best_rank: u8 = 0;
    let mut i: usize = 0;
    while i < rows.len()
        invariant
            i <= rows.len(),
            rv == row_views(rows@),
            match best {
                Some(b) => best_row(rv, i as int) == Some(b as int) && (b as int) < i && best_rank == rank_of(
                    kind_named(rv[b as int].1),
                ),
                None => best_row(rv, i as int) is None,
            },
        decreases rows.len() - i,
    {
        let k = primary_rank(kind_from_str(rows[i].1.as_str()));
        assert(rv[i as int].1 == rows@[i as int].1@);
        match best {
            Some(b) => {
                if k < best_rank {
                    best = Some(i);
                    best_rank = k;
                }
            },
            None => {
                best = Some(i);
                best_rank = k;
            },
        }
        i = i + 1;
    }
    best
}

} // verus!
