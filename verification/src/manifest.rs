//! The import manifest's vocabulary, and how an entry's file is found again once the archive
//! has moved: the manifest sits at `<archive>/.spektrorganize/imports/<stamp>.json`, so the
//! archive root is read off the manifest's own path.

use crate::paths::{file_name, join_path, lemma_join_parts, parent};
use crate::paths;
use crate::plan::Root;
use crate::text;
use vstd::prelude::*;

verus! {

/// The kinds of rendered outputs.
#[derive(Clone, Copy, Debug, PartialEq, Eq, Structural)]
pub enum OutputKind {
    Exr,
    Jpeg,
}

impl OutputKind {
    pub open spec fn ext_spec(self) -> Seq<char> {
        match self {
            OutputKind::Exr => "exr"@,
            OutputKind::Jpeg => "jpg"@,
        }
    }

    /// The file extension of the output.
    pub fn ext(self) -> (r: &'static str)
        ensures
            r@ == self.ext_spec(),
    {
        match self {
            OutputKind::Exr => "exr",
            OutputKind::Jpeg => "jpg",
        }
    }
}

/// What the copy phase did with a file.
#[derive(Clone, Debug, PartialEq, Eq)]
pub enum CopyStatus {
    Copied,
    SkippedExisting,
    Failed(String),
}

/// The directory above `p`, as `Path::parent` gives it: `/` above a top-level entry of an
/// absolute path, none above an empty path or `/` itself.
pub open spec fn parent_dir(p: Seq<char>) -> Option<Seq<char>> {
    if p.len() == 0 || p == seq!['/'] {
        None
    } else {
        let d = parent(p);
        if d.len() == 0 && p[0] == '/' {
            Some(seq!['/'])
        } else {
            Some(d)
        }
    }
}

/// The archive root implied by where the manifest sits (three directories up, when the
/// manifest is inside an `imports` directory), else the root recorded in it.
pub open spec fn archive_root_of(manifest_path: Seq<char>, recorded: Seq<char>) -> Seq<char> {
    match parent_dir(manifest_path) {
        Some(d) => if file_name(d) == "imports"@ {
            match parent_dir(d) {
                Some(dd) => match parent_dir(dd) {
                    Some(root) => root,
                    None => recorded,
                },
                None => recorded,
            }
        } else {
            recorded
        },
        None => recorded,
    }
}

fn parent_dir_exec(p: &Vec<char>) -> (r: Option<Vec<char>>)
    ensures
        r matches Some(v) ==> parent_dir(p@) == Some(v@),
        r is None ==> parent_dir(p@) is None,
{
    if p.len() == 0 || (p.len() == 1 && p[0] == '/') {
        proof {
            if p.len() == 1 {
                assert(p@ =~= seq!['/']);
            }
        }
        None
    } else {
        assert(p@ != seq!['/']) by {
            if p@ == seq!['/'] {
                assert(p@.len() == 1 && p@[0] == '/');
            }
        }
        let d = paths::parent_of(p);
        if d.len() == 0 && p[0] == '/' {
            let mut r: Vec<char> = Vec::new();
            r.push('/');
            assert(r@ =~= seq!['/']);
            Some(r)
        } else {
            Some(d)
        }
    }
}

/// The archive root for a manifest now at `manifest_path`, which recorded `recorded`.
pub fn archive_root_from(manifest_path: &str, recorded: &str) -> (r: String)
    ensures
        r@ == archive_root_of(manifest_path@, recorded@),
{
    let mp = text::chars_of(manifest_path);
    match parent_dir_exec(&mp) {
        Some(d) => {
            if text::eq_str(&paths::file_name_of(&d), "imports") {
                match parent_dir_exec(&d) {
                    Some(dd) => match parent_dir_exec(&dd) {
                        Some(root) => text::string_of(&root),
                        None => recorded.to_string(),
                    },
                    None => recorded.to_string(),
                }
            } else {
                recorded.to_string()
            }
        },
        None => recorded.to_string(),
    }
}

/// The roots a manifest recorded at import time.
#[derive(Clone, Debug)]
pub struct RecordedRoots {
    pub archive: String,
    pub video: String,
    pub other: String,
    pub render: String,
}

/// The directory an entry under `root` lives in now, given the archive root `archive` implied
/// by the manifest's place. Roots that were the archive root at import time follow it.
pub open spec fn entry_root(roots: RecordedRoots, archive: Seq<char>, root: Root) -> Seq<char> {
    match root {
        Root::Archive => archive,
        Root::Video => if roots.video@ == roots.archive@ {
            archive
        } else {
            roots.video@
        },
        Root::Other => if roots.other@ == roots.archive@ {
            archive
        } else {
            roots.other@
        },
        Root::Render => roots.render@,
    }
}

/// Absolute path of an entry with root `root` and relative path `rel`, for a manifest now at
/// `manifest_path`.
pub fn resolve(roots: &RecordedRoots, manifest_path: &str, root: Root, rel: &str) -> (r: String)
    ensures
        r@ == join_path(entry_root(*roots, archive_root_of(manifest_path@, roots.archive@), root), rel@),
{
    let archive = archive_root_from(manifest_path, roots.archive.as_str());
    let base: String = match root {
        Root::Archive => archive,
        Root::Video => if roots.video == roots.archive {
            archive
        } else {
            roots.video.clone()
        },
        Root::Other => if roots.other == roots.archive {
            archive
        } else {
            roots.other.clone()
        },
        Root::Render => roots.render.clone(),
    };
    text::string_of(&paths::join_path_chars(&text::chars_of(base.as_str()), &text::chars_of(rel)))
}

/// Entries of the archive root, and of roots that were the archive root at import time,
/// follow the manifest when the archive moves; the other roots stay where they were recorded.
pub proof fn lemma_resolve_follows_archive(roots: RecordedRoots, manifest_path: Seq<char>, root: Root)
    ensures
        (root == Root::Archive || (root == Root::Video && roots.video@ == roots.archive@) || (root == Root::Other
            && roots.other@ == roots.archive@)) ==> entry_root(roots, archive_root_of(manifest_path, roots.archive@), root)
            == archive_root_of(manifest_path, roots.archive@),
        (root == Root::Render) ==> entry_root(roots, archive_root_of(manifest_path, roots.archive@), root)
            == roots.render@,
{
}

// ---------- indexing a manifest ----------

/// Whether entries under a recorded video or other root get a root of their own in the
/// catalog: only when that root differs from the recorded archive root and some entry uses
/// it; otherwise they are filed under the archive root.
pub fn own_root(recorded: &str, archive: &str, used: bool) -> (r: bool)
    ensures
        r == (recorded@ != archive@ && used),
{
    used && !text::eq_chars(&text::chars_of(recorded), &text::chars_of(archive))
}

/// The positions below `n` of the entries of group `g` whose copy did not fail, in order.
pub open spec fn group_members(groups: Seq<u32>, failed: Seq<bool>, g: u32, n: int) -> Seq<int>
    decreases n,
{
    if n <= 0 {
        seq![]
    } else if groups[n - 1] == g && !failed[n - 1] {
        group_members(groups, failed, g, n - 1).push(n - 1)
    } else {
        group_members(groups, failed, g, n - 1)
    }
}

proof fn lemma_group_members(groups: Seq<u32>, failed: Seq<bool>, g: u32, n: int)
    requires
        0 <= n <= groups.len(),
    ensures
        forall|k: int| 0 <= k < group_members(groups, failed, g, n).len() ==> {
            let i = #[trigger] group_members(groups, failed, g, n)[k];
            0 <= i < n && groups[i] == g && !failed[i]
        },
        (exists|i: int| 0 <= i < n && groups[i] == g && !failed[i]) ==> group_members(groups, failed, g, n).len() > 0,
    decreases n,
{
    if n > 0 {
        lemma_group_members(groups, failed, g, n - 1);
    }
}

/// Some entry below `n` of group `g` was copied.
pub open spec fn kept_group(groups: Seq<u32>, failed: Seq<bool>, g: u32, n: int) -> bool {
    exists|j: int| 0 <= j < n && groups[j] == g && !failed[j]
}

/// The entries to index, by group in increasing group order: for each group with an entry
/// whose copy did not fail, those entries' positions, in manifest order. `groups` and
/// `failed` give each entry's group and whether its copy failed.
pub fn entry_groups(groups: &Vec<u32>, failed: &Vec<bool>) -> (r: Vec<(u32, Vec<usize>)>)
    requires
        groups.len() == failed.len(),
    ensures
        forall|a: int, b: int| 0 <= a < b < r.len() ==> (#[trigger] r@[a]).0 < (#[trigger] r@[b]).0,
        forall|a: int|
            0 <= a < r.len() ==> (#[trigger] r@[a]).1@.map_values(|x: usize| x as int) == group_members(
                groups@,
                failed@,
                r@[a].0,
                groups.len() as int,
            ) && r@[a].1.len() > 0,
        forall|i: int|
            0 <= i < groups.len() && !failed@[i] ==> exists|a: int| 0 <= a < r.len() && (#[trigger] r@[a]).0 == groups@[i],
{
    // The distinct groups of the kept entries, sorted.
    let mut ids: Vec<u32> = Vec::new();
    let mut i: usize = 0;
    while i < groups.len()
        invariant
            i <= groups.len(),
            groups.len() == failed.len(),
            forall|a: int, b: int| 0 <= a < b < ids.len() ==> #[trigger] ids@[a] < #[trigger] ids@[b],
            forall|a: int| 0 <= a < ids.len() ==> kept_group(groups@, failed@, #[trigger] ids@[a], i as int),
            forall|j: int| 0 <= j < i && !failed@[j] ==> ids@.contains(#[trigger] groups@[j]),
        decreases groups.len() - i,
    {
        if !failed[i] {
            let g = groups[i];
            let mut p: usize = 0;
            while p < ids.len() && ids[p] < g
                invariant
                    p <= ids.len(),
                    forall|a: int| 0 <= a < p ==> #[trigger] ids@[a] < g,
                decreases ids.len() - p,
            {
                p = p + 1;
            }
            if p == ids.len() || ids[p] != g {
                let ghost before = ids@;
                ids.insert(p, g);
                proof {
                    assert forall|a: int, b: int| 0 <= a < b < ids.len() implies #[trigger] ids@[a] < #[trigger] ids@[b] by {
                        if b < p {
                            assert(ids@[a] == before[a] && ids@[b] == before[b]);
                        } else if b == p {
                            assert(ids@[a] == before[a]);
                        } else if a < p {
                            assert(ids@[a] == before[a] && ids@[b] == before[b - 1]);
                        } else if a == p {
                            assert(ids@[b] == before[b - 1]);
                            assert(before[p as int] > g);
                            if b - 1 > p {
                                assert(before[p as int] < before[b - 1]);
                            }
                        } else {
                            assert(ids@[a] == before[a - 1] && ids@[b] == before[b - 1]);
                        }
                    }
                    assert forall|a: int| 0 <= a < ids.len() implies kept_group(groups@, failed@, #[trigger] ids@[a], i + 1) by {
                        if a < p {
                            assert(ids@[a] == before[a]);
                            assert(kept_group(groups@, failed@, before[a], i as int));
                            let j = choose|j: int| 0 <= j < i && groups@[j] == before[a] && !failed@[j];
                            assert(0 <= j < i + 1 && groups@[j] == ids@[a] && !failed@[j]);
                        } else if a > p {
                            assert(ids@[a] == before[a - 1]);
                            assert(kept_group(groups@, failed@, before[a - 1], i as int));
                            let j = choose|j: int| 0 <= j < i && groups@[j] == before[a - 1] && !failed@[j];
                            assert(0 <= j < i + 1 && groups@[j] == ids@[a] && !failed@[j]);
                        } else {
                            assert(groups@[i as int] == ids@[a]);
                        }
                    }
                    assert forall|j: int| 0 <= j < i + 1 && !failed@[j] implies ids@.contains(#[trigger] groups@[j]) by {
                        if j < i {
                            let a = choose|a: int| 0 <= a < before.len() && before[a] == groups@[j];
                            if a < p {
                                assert(ids@[a] == before[a]);
                            } else {
                                assert(ids@[a + 1] == before[a]);
                            }
                        } else {
                            assert(ids@[p as int] == groups@[j]);
                        }
                    }
                }
            } else {
                assert(ids@[p as int] == g);
            }
        }
        i = i + 1;
    }
    // Each group's entries.
    let mut out: Vec<(u32, Vec<usize>)> = Vec::new();
    let mut k: usize = 0;
    while k < ids.len()
        invariant
            k <= ids.len(),
            groups.len() == failed.len(),
            forall|a: int, b: int| 0 <= a < b < ids.len() ==> #[trigger] ids@[a] < #[trigger] ids@[b],
            forall|j: int| 0 <= j < groups.len() && !failed@[j] ==> ids@.contains(#[trigger] groups@[j]),
            forall|a: int| 0 <= a < ids.len() ==> kept_group(groups@, failed@, #[trigger] ids@[a], groups.len() as int),
            out.len() == k,
            forall|a: int| 0 <= a < k ==> (#[trigger] out@[a]).0 == ids@[a],
            forall|a: int|
                0 <= a < k ==> (#[trigger] out@[a]).1@.map_values(|x: usize| x as int) == group_members(
                    groups@,
                    failed@,
                    out@[a].0,
                    groups.len() as int,
                ) && out@[a].1.len() > 0,
        decreases ids.len() - k,
    {
        let g = ids[k];
        let mut members: Vec<usize> = Vec::new();
        let mut j: usize = 0;
        while j < groups.len()
            invariant
                j <= groups.len(),
                groups.len() == failed.len(),
                members@.map_values(|x: usize| x as int) == group_members(groups@, failed@, g, j as int),
            decreases groups.len() - j,
        {
            if groups[j] == g && !failed[j] {
                let ghost before = members@.map_values(|x: usize| x as int);
                members.push(j);
                assert(members@.map_values(|x: usize| x as int) =~= before.push(j as int));
            }
            j = j + 1;
        }
        proof {
            lemma_group_members(groups@, failed@, g, groups.len() as int);
            assert(kept_group(groups@, failed@, g, groups.len() as int));
            assert(members@.map_values(|x: usize| x as int).len() == members.len());
        }
        out.push((g, members));
        k = k + 1;
    }
    proof {
        assert forall|i: int| 0 <= i < groups.len() && !failed@[i] implies exists|a: int|
            0 <= a < out.len() && (#[trigger] out@[a]).0 == groups@[i] by {
            let a = choose|a: int| 0 <= a < ids.len() && ids@[a] == groups@[i];
            assert(out@[a].0 == groups@[i]);
        }
    }
    out
}

/// What the catalog records of an entry's file.
#[derive(Clone, Debug)]
pub struct FileFacts {
    pub size: u64,
    pub mtime: Option<i64>,
    pub blake3: Option<String>,
    pub missing: bool,
}

/// An entry's file as the catalog records it: when it is on disk (with its length and
/// modification time), the disk's length and time, and the recorded hash only if the length
/// still matches; when it is not, the recorded size and hash, missing if its root is online.
pub fn file_facts(on_disk: Option<(u64, Option<i64>)>, recorded_size: u64, recorded_hash: &Option<String>, root_online: bool) -> (r: FileFacts)
    ensures
        match on_disk {
            Some((len, mtime)) => {
                &&& r.size == len
                &&& r.mtime == mtime
                &&& r.blake3 == (if len == recorded_size { *recorded_hash } else { None })
                &&& !r.missing
            },
            None => {
                &&& r.size == recorded_size
                &&& r.mtime is None
                &&& r.blake3 == *recorded_hash
                &&& r.missing == root_online
            },
        },
{
    match on_disk {
        Some((len, mtime)) => {
            let blake3 = if len == recorded_size {
                recorded_hash.clone()
            } else {
                None
            };
            FileFacts { size: len, mtime, blake3, missing: false }
        },
        None => FileFacts { size: recorded_size, mtime: None, blake3: recorded_hash.clone(), missing: root_online },
    }
}

/// A manifest kept where imports write it, `<root>/.spektrorganize/imports/<name>`, names
/// `<root>` as its archive root, wherever that root has moved and whatever was recorded.
pub proof fn lemma_manifest_finds_its_archive(root: Seq<char>, name: Seq<char>, recorded: Seq<char>)
    requires
        root.len() > 0,
        name.len() > 0,
        forall|m: int| 0 <= m < name.len() ==> name[m] != '/',
    ensures
        archive_root_of(root + "/.spektrorganize/imports/"@ + name, recorded) == root,
{
    reveal_strlit("/.spektrorganize/imports/");
    reveal_strlit("imports");
    let dot = seq!['.', 's', 'p', 'e', 'k', 't', 'r', 'o', 'r', 'g', 'a', 'n', 'i', 'z', 'e'];
    let imports = seq!['i', 'm', 'p', 'o', 'r', 't', 's'];
    let dd = root + seq!['/'] + dot;
    let d = dd + seq!['/'] + imports;
    let p = root + "/.spektrorganize/imports/"@ + name;
    assert(p =~= d + seq!['/'] + name);
    lemma_join_parts(d, name);
    lemma_join_parts(dd, imports);
    lemma_join_parts(root, dot);
    assert("imports"@ =~= imports);
    assert(p != seq!['/']) by {
        assert(p.len() > 1);
    }
    assert(d != seq!['/']) by {
        assert(d.len() > 1);
    }
    assert(dd != seq!['/']) by {
        assert(dd.len() > 1);
    }
}

} // verus!
