//! Turn a scan plus config into concrete destination paths.

use crate::config::Config;
use crate::datetime::DateTime;
use crate::paths::{self, extension, file_name, file_stem, join_path, parent, split_name};
use crate::scan::{rel_dir_spec, FileId, Group, GroupId, Kind, Scan, ScannedFile};
use crate::template::{opt_str, render_spec, Context, ContextView, ErrorView, Template, TemplateError};
use crate::text::{self, decimal};
use vstd::prelude::*;

verus! {

/// The destination roots.
#[derive(Clone, Copy, PartialEq, Eq, Structural, Debug, Hash)]
pub enum Root {
    Archive,
    Video,
    Other,
    Render,
}

/// What a planned destination holds now.
#[derive(Clone, Copy, PartialEq, Eq, Structural, Debug)]
pub enum DestStatus {
    New,
    /// Destination exists with the same size; will be skipped when `skip_existing` is on.
    ExistsSameSize,
    /// Destination exists with a different size; will be written under a suffixed name.
    ExistsDifferent,
    /// Another source file in this import mapped to the same path; suffixed.
    Collision,
}

/// One file's destination.
#[derive(Clone, Debug)]
pub struct PlannedFile {
    pub file: FileId,
    pub group: GroupId,
    pub root: Root,
    /// Path relative to `root`.
    pub rel: String,
    /// Full destination.
    pub dest: String,
    pub size: u64,
    pub status: DestStatus,
}

/// The outputs a RAW will be rendered to.
#[derive(Clone, Debug)]
pub struct PlannedRender {
    pub group: GroupId,
    pub raw: FileId,
    pub exr: Option<String>,
    pub jpeg: Option<String>,
}

/// Where everything in an import goes.
#[derive(Clone, Debug)]
pub struct Plan {
    pub imported_at: DateTime,
    pub included: Vec<GroupId>,
    pub files: Vec<PlannedFile>,
    pub renders: Vec<PlannedRender>,
}

/// Why a plan could not be made.
#[derive(Clone, PartialEq, Eq, Debug)]
pub enum PlanError {
    /// A template could not be rendered for one of the files.
    Template(TemplateError),
    /// Every suffixed name for this destination was taken.
    NoFreeName(String),
}

/// The sum of the sizes of planned files.
pub open spec fn planned_size(files: Seq<PlannedFile>) -> nat
    decreases files.len(),
{
    if files.len() == 0 {
        0
    } else {
        planned_size(files.drop_last()) + files.last().size as nat
    }
}

/// The sum of the sizes of the planned files a copy writes: all but those found on disk with
/// the same size, when `skip_existing` is on.
pub open spec fn copy_size(files: Seq<PlannedFile>, skip_existing: bool) -> nat
    decreases files.len(),
{
    if files.len() == 0 {
        0
    } else {
        copy_size(files.drop_last(), skip_existing) + if skip_existing && files.last().status
            == DestStatus::ExistsSameSize {
            0nat
        } else {
            files.last().size as nat
        }
    }
}

pub proof fn lemma_copy_size_le(files: Seq<PlannedFile>, skip_existing: bool)
    ensures
        copy_size(files, skip_existing) <= planned_size(files),
    decreases files.len(),
{
    if files.len() > 0 {
        lemma_copy_size_le(files.drop_last(), skip_existing);
    }
}

pub proof fn lemma_planned_size_prefix(files: Seq<PlannedFile>, k: int)
    requires
        0 <= k <= files.len(),
    ensures
        planned_size(files.take(k)) <= planned_size(files),
    decreases files.len() - k,
{
    if k < files.len() {
        lemma_planned_size_prefix(files, k + 1);
        assert(files.take(k + 1).drop_last() =~= files.take(k));
    } else {
        assert(files.take(k) =~= files);
    }
}

proof fn lemma_copy_size_prefix(files: Seq<PlannedFile>, k: int, skip: bool)
    requires
        0 <= k <= files.len(),
    ensures
        copy_size(files.take(k), skip) <= copy_size(files, skip),
    decreases files.len() - k,
{
    if k < files.len() {
        lemma_copy_size_prefix(files, k + 1, skip);
        assert(files.take(k + 1).drop_last() =~= files.take(k));
    } else {
        assert(files.take(k) =~= files);
    }
}

impl Plan {
    /// The size of everything planned.
    pub fn total_bytes(&self) -> (r: u64)
        requires
            planned_size(self.files@) <= u64::MAX,
        ensures
            r == planned_size(self.files@),
    {
        let mut sum: u64 = 0;
        let mut i: usize = 0;
        while i < self.files.len()
            invariant
                i <= self.files.len(),
                sum == planned_size(self.files@.take(i as int)),
                planned_size(self.files@) <= u64::MAX,
            decreases self.files.len() - i,
        {
            proof {
                assert(self.files@.take(i + 1).drop_last() =~= self.files@.take(i as int));
                lemma_planned_size_prefix(self.files@, i + 1);
            }
            sum = sum + self.files[i].size;
            i = i + 1;
        }
        assert(self.files@.take(i as int) =~= self.files@);
        sum
    }

    /// The size of what a copy writes.
    pub fn bytes_to_copy(&self, skip_existing: bool) -> (r: u64)
        requires
            planned_size(self.files@) <= u64::MAX,
        ensures
            r == copy_size(self.files@, skip_existing),
    {
        let mut sum: u64 = 0;
        let mut i: usize = 0;
        proof {
            lemma_copy_size_le(self.files@, skip_existing);
        }
        while i < self.files.len()
            invariant
                i <= self.files.len(),
                sum == copy_size(self.files@.take(i as int), skip_existing),
                copy_size(self.files@, skip_existing) <= u64::MAX,
            decreases self.files.len() - i,
        {
            proof {
                assert(self.files@.take(i + 1).drop_last() =~= self.files@.take(i as int));
                lemma_copy_size_prefix(self.files@, i + 1, skip_existing);
            }
            if !(skip_existing && self.files[i].status == DestStatus::ExistsSameSize) {
                sum = sum + self.files[i].size;
            }
            i = i + 1;
        }
        assert(self.files@.take(i as int) =~= self.files@);
        sum
    }
}

/// The directory a root stands for.
pub open spec fn root_path_spec(cfg: Config, root: Root) -> Seq<char> {
    match root {
        Root::Archive => cfg.archive_root@,
        Root::Video => cfg.video_root_spec(),
        Root::Other => cfg.other_root_spec(),
        Root::Render => cfg.render_root@,
    }
}

/// The directory a root stands for.
pub fn root_path(cfg: &Config, root: Root) -> (r: &String)
    ensures
        r@ == root_path_spec(*cfg, root),
{
    match root {
        Root::Archive => &cfg.archive_root,
        Root::Video => cfg.video_root(),
        Root::Other => cfg.other_root(),
        Root::Render => &cfg.render_root,
    }
}

/// The template values for file `f` of group `g`, the `seq`-th group of an import made at
/// `imported`.
pub open spec fn context_spec(scan: Scan, g: Group, f: ScannedFile, seq: u32, imported: DateTime) -> ContextView {
    ContextView {
        captured: g.meta.captured_at,
        imported,
        camera: opt_str(g.meta.camera),
        make: opt_str(g.meta.make),
        model: opt_str(g.meta.model),
        stem: file_stem(f.path@),
        ext: extension(f.path@),
        kind: f.kind.name(),
        volume: scan.source.label@,
        rel_dir: rel_dir_spec(f.rel@),
        seq,
        iso: g.meta.iso,
        lens: opt_str(g.meta.lens),
        preset: None,
    }
}

fn clone_opt(o: &Option<String>) -> (r: Option<String>)
    ensures
        opt_str(r) == opt_str(*o),
{
    match o {
        Some(s) => Some(s.clone()),
        None => None,
    }
}

fn context(scan: &Scan, group: &Group, file: &ScannedFile, seq: u32, imported: DateTime) -> (c: Context)
    ensures
        c@ == context_spec(*scan, *group, *file, seq, imported),
{
    Context {
        captured: group.meta.captured_at,
        imported,
        camera: clone_opt(&group.meta.camera),
        make: clone_opt(&group.meta.make),
        model: clone_opt(&group.meta.model),
        stem: file.stem(),
        ext: file.ext(),
        kind: file.kind.as_str().to_string(),
        volume: scan.source.label.clone(),
        rel_dir: file.rel_dir(),
        seq,
        iso: group.meta.iso,
        lens: clone_opt(&group.meta.lens),
        preset: None,
    }
}

/// Where a group's primary goes, by its kind.
pub open spec fn primary_root(k: Kind) -> Root {
    match k {
        Kind::Raw | Kind::Image => Root::Archive,
        Kind::Video => Root::Video,
        _ => Root::Other,
    }
}

/// The template a group's primary is named with, by its kind.
pub open spec fn primary_template(cfg: Config, k: Kind) -> Template {
    match k {
        Kind::Raw => cfg.templates.raw,
        Kind::Image => cfg.templates.image,
        Kind::Video => cfg.templates.video,
        _ => cfg.templates.other,
    }
}

/// A planned file before collisions are resolved.
pub struct EntryView {
    pub file: FileId,
    pub group: GroupId,
    pub root: Root,
    pub rel: Seq<char>,
    pub size: u64,
}

/// The outputs planned for a RAW.
pub struct RenderView {
    pub group: GroupId,
    pub raw: FileId,
    pub exr: Option<Seq<char>>,
    pub jpeg: Option<Seq<char>>,
}

/// The entry for attachment `aid` of group `gid`, whose primary went to `root` under the
/// directory `primary_dir`: a JPEG next to a RAW is named by the paired-image template; any
/// other attachment sits next to its primary under its own name.
pub open spec fn attachment_entry(
    scan: Scan,
    cfg: Config,
    gid: GroupId,
    aid: FileId,
    seq: u32,
    imported: DateTime,
    root: Root,
    primary_dir: Seq<char>,
) -> Result<EntryView, ErrorView> {
    let g = scan.groups@[gid.0 as int];
    let f = scan.files@[aid.0 as int];
    if g.kind == Kind::Raw && f.kind == Kind::Image {
        match render_spec(cfg.templates.paired_image.parts_spec(), context_spec(scan, g, f, seq, imported)) {
            Err(e) => Err(e),
            Ok(rel) => Ok(EntryView { file: aid, group: gid, root: Root::Archive, rel, size: f.size }),
        }
    } else {
        Ok(
            EntryView {
                file: aid,
                group: gid,
                root,
                rel: join_path(primary_dir, file_name(f.path@)),
                size: f.size,
            },
        )
    }
}

/// The entries for the first `k` attachments of group `gid`.
pub open spec fn attachment_entries(
    scan: Scan,
    cfg: Config,
    gid: GroupId,
    seq: u32,
    imported: DateTime,
    root: Root,
    primary_dir: Seq<char>,
    k: int,
) -> Result<Seq<EntryView>, ErrorView>
    decreases k,
{
    if k <= 0 {
        Ok(seq![])
    } else {
        match attachment_entries(scan, cfg, gid, seq, imported, root, primary_dir, k - 1) {
            Err(e) => Err(e),
            Ok(es) => match attachment_entry(
                scan,
                cfg,
                gid,
                scan.groups@[gid.0 as int].attachments@[k - 1],
                seq,
                imported,
                root,
                primary_dir,
            ) {
                Err(e) => Err(e),
                Ok(e) => Ok(es.push(e)),
            },
        }
    }
}

/// A render output's full path.
pub open spec fn render_output(cfg: Config, t: Template, ctx: ContextView, on: bool) -> Result<
    Option<Seq<char>>,
    ErrorView,
> {
    if !on {
        Ok(None)
    } else {
        match render_spec(t.parts_spec(), ctx) {
            Err(e) => Err(e),
            Ok(rel) => Ok(Some(join_path(cfg.render_root@, rel))),
        }
    }
}

/// The renders planned for group `gid`: RAWs only, when an output is switched on.
pub open spec fn group_render(scan: Scan, cfg: Config, gid: GroupId, seq: u32, imported: DateTime) -> Result<
    Option<RenderView>,
    ErrorView,
> {
    let g = scan.groups@[gid.0 as int];
    let ctx = context_spec(scan, g, scan.files@[g.primary.0 as int], seq, imported);
    if g.kind == Kind::Raw && (cfg.outputs.exr || cfg.outputs.jpeg) {
        match render_output(cfg, cfg.templates.render_exr, ctx, cfg.outputs.exr) {
            Err(e) => Err(e),
            Ok(exr) => match render_output(cfg, cfg.templates.render_jpeg, ctx, cfg.outputs.jpeg) {
                Err(e) => Err(e),
                Ok(jpeg) => Ok(Some(RenderView { group: gid, raw: g.primary, exr, jpeg })),
            },
        }
    } else {
        Ok(None)
    }
}

/// Everything planned for group `gid`, the `seq`-th of the import: its primary, then its
/// attachments, and its render outputs.
pub open spec fn group_plan(scan: Scan, cfg: Config, gid: GroupId, seq: u32, imported: DateTime) -> Result<
    (Seq<EntryView>, Option<RenderView>),
    ErrorView,
> {
    let g = scan.groups@[gid.0 as int];
    let p = scan.files@[g.primary.0 as int];
    let root = primary_root(g.kind);
    match render_spec(primary_template(cfg, g.kind).parts_spec(), context_spec(scan, g, p, seq, imported)) {
        Err(e) => Err(e),
        Ok(rel) => match attachment_entries(
            scan,
            cfg,
            gid,
            seq,
            imported,
            root,
            parent(rel),
            g.attachments@.len() as int,
        ) {
            Err(e) => Err(e),
            Ok(atts) => match group_render(scan, cfg, gid, seq, imported) {
                Err(e) => Err(e),
                Ok(r) => Ok(
                    (
                        seq![EntryView { file: g.primary, group: gid, root, rel, size: p.size }] + atts,
                        r,
                    ),
                ),
            },
        },
    }
}

/// The plan for the first `k` of the ordered groups, numbered from 1, before collisions are
/// resolved.
pub open spec fn plan_entries(scan: Scan, cfg: Config, ordered: Seq<GroupId>, k: int, imported: DateTime) -> Result<
    (Seq<EntryView>, Seq<RenderView>),
    ErrorView,
>
    decreases k,
{
    if k <= 0 {
        Ok((seq![], seq![]))
    } else {
        match plan_entries(scan, cfg, ordered, k - 1, imported) {
            Err(e) => Err(e),
            Ok((es, rs)) => match group_plan(scan, cfg, ordered[k - 1], k as u32, imported) {
                Err(e) => Err(e),
                Ok((ges, r)) => Ok(
                    (
                        es + ges,
                        match r {
                            Some(rv) => rs.push(rv),
                            None => rs,
                        },
                    ),
                ),
            },
        }
    }
}

/// `p` with `_n` added to its file stem, before the extension (`a/b.c` becomes `a/b_n.c`).
pub open spec fn suffixed_spec(p: Seq<char>, n: nat) -> Seq<char> {
    let parts = split_name(file_name(p));
    let name = match parts.1 {
        Some(ext) => parts.0 + seq!['_'] + decimal(n) + seq!['.'] + ext,
        None => parts.0 + seq!['_'] + decimal(n),
    };
    join_path(parent(p), name)
}

/// `p` with `_n` added to its file stem.
pub fn suffixed(p: &Vec<char>, n: usize) -> (r: Vec<char>)
    ensures
        r@ == suffixed_spec(p@, n as nat),
{
    let name = paths::file_name_of(p);
    let (stem, ext) = paths::split_name_of(&name);
    let mut out = stem;
    out.push('_');
    let digits = text::decimal_of(n as u64);
    text::push_chars(&mut out, &digits);
    match ext {
        Some(e) => {
            out.push('.');
            text::push_chars(&mut out, &e);
        },
        None => {},
    }
    let dir = paths::parent_of(p);
    paths::join_path_chars(&dir, &out)
}

/// Where entry `e` is meant to go before collisions are resolved.
pub open spec fn entry_dest(cfg: Config, e: EntryView) -> Seq<char> {
    join_path(root_path_spec(cfg, e.root), e.rel)
}

/// The entries `es` settled as `fin` up to entry `i`, and no destination was free for entry
/// `i`, whose unsuffixed destination is `d`.
pub open spec fn stuck<F: Fn(&str) -> Option<u64>>(on_disk: F, cfg: Config, es: Seq<EntryView>, d: Seq<char>, fin: Seq<PlannedFile>, i: int) -> bool {
    &&& fin.len() == es.len()
    &&& 0 <= i < es.len()
    &&& d == entry_dest(cfg, es[i])
    &&& forall|k: int| 0 <= k < i ==> #[trigger] settled_file(on_disk, es[k], entry_dest(cfg, es[k]), fin, k)
    &&& no_free_name(on_disk, dests(fin.take(i)), entry_dest(cfg, es[i]), es[i].size)
}

/// Resolving the entries `es` stopped at an entry, meant for `d`, for which no destination was
/// free.
pub open spec fn stuck_at<F: Fn(&str) -> Option<u64>>(on_disk: F, cfg: Config, es: Seq<EntryView>, d: Seq<char>) -> bool {
    exists|fin: Seq<PlannedFile>, i: int| #[trigger] stuck(on_disk, cfg, es, d, fin, i)
}

/// No two planned files share a destination.
pub open spec fn distinct_dests(files: Seq<PlannedFile>) -> bool {
    forall|i: int, j: int| 0 <= i < j < files.len() ==> (#[trigger] files[i]).dest@ != (#[trigger] files[j]).dest@
}

pub open spec fn render_view(r: PlannedRender) -> RenderView {
    RenderView { group: r.group, raw: r.raw, exr: opt_str(r.exr), jpeg: opt_str(r.jpeg) }
}

pub open spec fn seq_contains_chars(v: Seq<Vec<char>>, s: Seq<char>) -> bool {
    exists|k: int| 0 <= k < v.len() && (#[trigger] v[k])@ == s
}

fn contains_chars(v: &Vec<Vec<char>>, s: &Vec<char>) -> (b: bool)
    ensures
        b == seq_contains_chars(v@, s@),
{
    let mut k: usize = 0;
    while k < v.len()
        invariant
            k <= v.len(),
            forall|m: int| 0 <= m < k ==> (#[trigger] v@[m])@ != s@,
        decreases v.len() - k,
    {
        if text::eq_chars(&v[k], s) {
            return true;
        }
        k = k + 1;
    }
    false
}

/// What a tried destination turned out to be.
#[derive(Clone, Copy, PartialEq, Eq, Structural, Debug)]
pub enum Probe {
    /// Nothing is there.
    Free,
    /// A file of the planned size is there; the copy can skip it.
    SameSize,
    /// An earlier file of the plan took it.
    Taken,
    /// A file of another size is there.
    Differs,
}

pub open spec fn probe_spec(by_plan: bool, on_disk: Option<u64>, size: u64) -> Probe {
    if by_plan {
        Probe::Taken
    } else {
        match on_disk {
            None => Probe::Free,
            Some(l) => if l == size {
                Probe::SameSize
            } else {
                Probe::Differs
            },
        }
    }
}

/// What a destination turns out to be for a file of `size` bytes, from whether an earlier
/// file of the plan took it and the size of the file on disk there, if any.
pub fn probe(by_plan: bool, on_disk: Option<u64>, size: u64) -> (r: Probe)
    ensures
        r == probe_spec(by_plan, on_disk, size),
{
    if by_plan {
        Probe::Taken
    } else {
        match on_disk {
            None => Probe::Free,
            Some(l) => if l == size {
                Probe::SameSize
            } else {
                Probe::Differs
            },
        }
    }
}

/// A destination that cannot be used: taken by the plan, or held by a file of another size.
pub open spec fn blocked(p: Probe) -> bool {
    p is Taken || p is Differs
}

/// The `m`-th destination tried for `p`: `p` itself, then `p` with `_1`, `_2`, ...
pub open spec fn cand(p: Seq<char>, m: nat) -> Seq<char> {
    if m == 0 {
        p
    } else {
        suffixed_spec(p, m)
    }
}

/// What the `m`-th destination tried for `dest` is, given the destinations `taken` before it
/// and the sizes `ans` found on disk.
pub open spec fn probe_at(taken: Seq<Seq<char>>, dest: Seq<char>, size: u64, ans: Seq<Option<u64>>, m: int) -> Probe {
    probe_spec(taken.contains(cand(dest, m as nat)), ans[m], size)
}

/// The status of a file that settled on its `n`-th destination: `Collision` when the plan
/// took one tried before, else `ExistsSameSize` when a file of its size is there, else
/// `ExistsDifferent` when it had to move past files of other sizes, else `New`.
pub open spec fn settled_status(taken: Seq<Seq<char>>, dest: Seq<char>, size: u64, ans: Seq<Option<u64>>, n: nat) -> DestStatus {
    if exists|m: int| 0 <= m < n && #[trigger] probe_at(taken, dest, size, ans, m) is Taken {
        DestStatus::Collision
    } else if probe_at(taken, dest, size, ans, n as int) is SameSize {
        DestStatus::ExistsSameSize
    } else if n > 0 {
        DestStatus::ExistsDifferent
    } else {
        DestStatus::New
    }
}

/// `o` is an answer `f` can give for a path that reads `p`.
pub open spec fn size_answered<F: Fn(&str) -> Option<u64>>(f: F, p: Seq<char>, o: Option<u64>) -> bool {
    exists|s: &str| s@ == p && #[trigger] call_ensures(f, (s,), o)
}

/// The destinations of `fs`.
pub open spec fn dests(fs: Seq<PlannedFile>) -> Seq<Seq<char>> {
    fs.map_values(|f: PlannedFile| f.dest@)
}

/// `fin[i]` is the entry `e`, first meant for `dest`, settled on its `n`-th destination: the
/// first one, in the order `dest`, `dest_1`, `dest_2`, ..., that no earlier file of `fin`
/// took and that holds no file of another size, given the sizes `ans` that `on_disk`
/// answered for the tried destinations the plan had not taken.
pub open spec fn settled_as<F: Fn(&str) -> Option<u64>>(
    on_disk: F,
    e: EntryView,
    dest: Seq<char>,
    fin: Seq<PlannedFile>,
    i: int,
    ans: Seq<Option<u64>>,
    n: nat,
) -> bool {
    let taken = dests(fin.take(i));
    let f = fin[i];
    &&& f.file == e.file
    &&& f.group == e.group
    &&& f.root == e.root
    &&& f.size == e.size
    &&& f.rel@ == cand(e.rel, n)
    &&& f.dest@ == cand(dest, n)
    &&& ans.len() == n + 1
    &&& forall|m: int| 0 <= m < n ==> blocked(#[trigger] probe_at(taken, dest, e.size, ans, m))
    &&& !blocked(probe_at(taken, dest, e.size, ans, n as int))
    &&& f.status == settled_status(taken, dest, e.size, ans, n)
    &&& forall|m: int|
        0 <= m <= n && !taken.contains(cand(dest, m as nat)) ==> size_answered(on_disk, cand(dest, m as nat), #[trigger] ans[m])
}

/// `fin[i]` is the entry `e`, first meant for `dest`, settled as `settled_as` says for some
/// answers of `on_disk`.
pub open spec fn settled_file<F: Fn(&str) -> Option<u64>>(on_disk: F, e: EntryView, dest: Seq<char>, fin: Seq<PlannedFile>, i: int) -> bool {
    exists|ans: Seq<Option<u64>>, n: nat| #[trigger] settled_as(on_disk, e, dest, fin, i, ans, n)
}

/// Given the answers `ans` of `on_disk`, none of the destinations `dest`, `dest_1`, ...,
/// `dest_{usize::MAX}` is free for a file of `size` bytes after the destinations `taken`.
pub open spec fn none_free<F: Fn(&str) -> Option<u64>>(
    on_disk: F,
    taken: Seq<Seq<char>>,
    dest: Seq<char>,
    size: u64,
    ans: Seq<Option<u64>>,
) -> bool {
    &&& ans.len() == usize::MAX + 1
    &&& forall|m: int| 0 <= m <= usize::MAX ==> blocked(#[trigger] probe_at(taken, dest, size, ans, m))
    &&& forall|m: int|
        0 <= m <= usize::MAX && !taken.contains(cand(dest, m as nat)) ==> size_answered(on_disk, cand(dest, m as nat), #[trigger] ans[m])
}

/// `on_disk` can answer so that no destination is free for a file of `size` bytes meant for
/// `dest` after the destinations `taken`.
pub open spec fn no_free_name<F: Fn(&str) -> Option<u64>>(on_disk: F, taken: Seq<Seq<char>>, dest: Seq<char>, size: u64) -> bool {
    exists|ans: Seq<Option<u64>>| #[trigger] none_free(on_disk, taken, dest, size, ans)
}

proof fn lemma_taken(taken: Seq<Vec<char>>, files: Seq<PlannedFile>, i: int, c: Seq<char>)
    requires
        0 <= i <= files.len(),
        taken.len() == i,
        forall|k: int| 0 <= k < i ==> (#[trigger] taken[k])@ == files[k].dest@,
    ensures
        seq_contains_chars(taken, c) == dests(files.take(i)).contains(c),
{
    if seq_contains_chars(taken, c) {
        let k = choose|k: int| 0 <= k < taken.len() && (#[trigger] taken[k])@ == c;
        assert(dests(files.take(i))[k] == c);
    }
    if dests(files.take(i)).contains(c) {
        let k = choose|k: int| 0 <= k < dests(files.take(i)).len() && dests(files.take(i))[k] == c;
        assert(taken[k]@ == c);
    }
}

/// Give every planned file a destination of its own. A destination already claimed by an
/// earlier file of the plan, or held on disk by a file of another size, is tried again with
/// the suffix `_1`, `_2`, ... until one is free or holds a file of the same size, which the
/// copy can then skip. `on_disk` reports the size of the file at a path, if there is one; it
/// is asked only about destinations no earlier file took. When no suffix up to `usize::MAX`
/// is free for a file, its unsuffixed destination is returned in `NoFreeName`.
pub fn resolve_collisions<F: Fn(&str) -> Option<u64>>(files: &mut Vec<PlannedFile>, on_disk: &F) -> (r: Result<(), PlanError>)
    requires
        forall|p: &str| #[trigger] call_requires(*on_disk, (p,)),
    ensures
        final(files).len() == old(files).len(),
        match r {
            Ok(()) => {
                &&& forall|i: int|
                    0 <= i < old(files).len() ==> #[trigger] settled_file(
                        *on_disk,
                        entry_view(old(files)@[i]),
                        old(files)@[i].dest@,
                        final(files)@,
                        i,
                    )
                &&& distinct_dests(final(files)@)
            },
            Err(PlanError::NoFreeName(d)) => exists|i: int|
                0 <= i < old(files).len() && d@ == old(files)@[i].dest@ && (forall|k: int|
                    0 <= k < i ==> #[trigger] settled_file(*on_disk, entry_view(old(files)@[k]), old(files)@[k].dest@, final(files)@, k))
                    && #[trigger] no_free_name(*on_disk, dests(final(files)@.take(i)), old(files)@[i].dest@, old(files)@[i].size),
            Err(PlanError::Template(_)) => false,
        },
{
    let mut taken: Vec<Vec<char>> = Vec::new();
    let ghost start = files@;
    let mut i: usize = 0;
    while i < files.len()
        invariant
            files.len() == start.len(),
            start == old(files)@,
            i <= files.len(),
            forall|p: &str| #[trigger] call_requires(*on_disk, (p,)),
            taken.len() == i,
            forall|k: int| 0 <= k < i ==> (#[trigger] taken@[k])@ == files@[k].dest@,
            distinct_dests(files@.take(i as int)),
            forall|k: int| 0 <= k < i ==> #[trigger] settled_file(*on_disk, entry_view(start[k]), start[k].dest@, files@, k),
            forall|k: int| i <= k < files.len() ==> files@[k] == start[k],
        decreases files.len() - i,
    {
        let dest = text::chars_of(files[i].dest.as_str());
        let rel = text::chars_of(files[i].rel.as_str());
        let (file, group, root, size) = (files[i].file, files[i].group, files[i].root, files[i].size);
        let ghost tk = dests(files@.take(i as int));
        let ghost e = entry_view(start[i as int]);
        assert(files@[i as int] == start[i as int]);
        let ghost mut ans: Seq<Option<u64>> = seq![];
        let mut n: usize = 0;
        let mut candidate = dest.clone();
        let mut collided = false;
        let mut same_size = false;
        loop
            invariant_except_break
                ans.len() == n,
                !same_size,
            invariant
                forall|p: &str| #[trigger] call_requires(*on_disk, (p,)),
                files.len() == start.len(),
                start == old(files)@,
                i < files.len(),
                taken.len() == i,
                forall|k: int| 0 <= k < i ==> (#[trigger] taken@[k])@ == files@[k].dest@,
                tk == dests(files@.take(i as int)),
                forall|k: int| 0 <= k < i ==> #[trigger] settled_file(*on_disk, entry_view(start[k]), start[k].dest@, files@, k),
                forall|k: int| i <= k < files.len() ==> files@[k] == start[k],
                dest@ == start[i as int].dest@,
                rel@ == start[i as int].rel@,
                size == start[i as int].size,
                candidate@ == cand(dest@, n as nat),
                forall|m: int| 0 <= m < n ==> blocked(#[trigger] probe_at(tk, dest@, size, ans, m)),
                forall|m: int|
                    0 <= m < n && !tk.contains(cand(dest@, m as nat)) ==> size_answered(*on_disk, cand(dest@, m as nat), #[trigger] ans[m]),
                collided == exists|m: int| 0 <= m < n && #[trigger] probe_at(tk, dest@, size, ans, m) is Taken,
            ensures
                ans.len() == n + 1,
                forall|m: int| 0 <= m < n ==> blocked(#[trigger] probe_at(tk, dest@, size, ans, m)),
                !blocked(probe_at(tk, dest@, size, ans, n as int)),
                same_size == probe_at(tk, dest@, size, ans, n as int) is SameSize,
                forall|m: int|
                    0 <= m <= n && !tk.contains(cand(dest@, m as nat)) ==> size_answered(*on_disk, cand(dest@, m as nat), #[trigger] ans[m]),
                collided == exists|m: int| 0 <= m < n && #[trigger] probe_at(tk, dest@, size, ans, m) is Taken,
                candidate@ == cand(dest@, n as nat),
            decreases usize::MAX - n,
        {
            let by_plan = contains_chars(&taken, &candidate);
            proof {
                lemma_taken(taken@, files@, i as int, candidate@);
            }
            let disk = if by_plan {
                None
            } else {
                let cs = text::string_of(&candidate);
                let d = on_disk(cs.as_str());
                assert(size_answered(*on_disk, candidate@, d));
                d
            };
            let pr = probe(by_plan, disk, size);
            let ghost prev = ans;
            proof {
                ans = ans.push(disk);
                assert forall|m: int| 0 <= m < n implies #[trigger] probe_at(tk, dest@, size, ans, m) == probe_at(tk, dest@, size, prev, m) by {
                    assert(ans[m] == prev[m]);
                }
                assert(probe_at(tk, dest@, size, ans, n as int) == pr);
                if exists|m: int| 0 <= m < n && #[trigger] probe_at(tk, dest@, size, ans, m) is Taken {
                    let m = choose|m: int| 0 <= m < n && #[trigger] probe_at(tk, dest@, size, ans, m) is Taken;
                    assert(probe_at(tk, dest@, size, prev, m) is Taken);
                }
                if exists|m: int| 0 <= m < n && #[trigger] probe_at(tk, dest@, size, prev, m) is Taken {
                    let m = choose|m: int| 0 <= m < n && #[trigger] probe_at(tk, dest@, size, prev, m) is Taken;
                    assert(probe_at(tk, dest@, size, ans, m) == probe_at(tk, dest@, size, prev, m));
                }
                assert forall|m: int|
                    0 <= m <= n && !tk.contains(cand(dest@, m as nat)) implies size_answered(*on_disk, cand(dest@, m as nat), #[trigger] ans[m]) by {
                    if m < n {
                        assert(ans[m] == prev[m]);
                    }
                }
            }
            match pr {
                Probe::Free => {
                    break;
                },
                Probe::SameSize => {
                    same_size = true;
                    break;
                },
                Probe::Taken => {
                    collided = true;
                },
                Probe::Differs => {},
            }
            if n == usize::MAX {
                proof {
                    assert(none_free(*on_disk, tk, dest@, size, ans));
                    assert(no_free_name(*on_disk, tk, dest@, size));
                    assert(start[i as int].dest@ == dest@);
                }
                return Err(PlanError::NoFreeName(text::string_of(&dest)));
            }
            n = n + 1;
            candidate = suffixed(&dest, n);
        }
        let status = if collided {
            DestStatus::Collision
        } else if same_size {
            DestStatus::ExistsSameSize
        } else if n > 0 {
            DestStatus::ExistsDifferent
        } else {
            DestStatus::New
        };
        let nf = if n > 0 {
            PlannedFile {
                file,
                group,
                root,
                rel: text::string_of(&suffixed(&rel, n)),
                dest: text::string_of(&candidate),
                size,
                status,
            }
        } else {
            PlannedFile { file, group, root, rel: text::string_of(&rel), dest: text::string_of(&dest), size, status }
        };
        let ghost cand_v = candidate@;
        proof {
            lemma_taken(taken@, files@, i as int, candidate@);
        }
        let ghost old_taken = taken@;
        let ghost prev_files = files@;
        taken.push(candidate);
        files.set(i, nf);
        proof {
            assert(files@.take(i as int) =~= prev_files.take(i as int));
            assert(settled_as(*on_disk, e, start[i as int].dest@, files@, i as int, ans, n as nat));
            assert(distinct_dests(prev_files.take(i as int)));
            assert forall|a: int, b: int| 0 <= a < b < i + 1 implies (#[trigger] files@.take(i + 1)[a]).dest@
                != (#[trigger] files@.take(i + 1)[b]).dest@ by {
                assert(files@.take(i + 1)[a] == files@[a]);
                assert(files@.take(i + 1)[b] == files@[b]);
                if b == i {
                    assert(old_taken[a]@ == files@[a].dest@);
                    assert(files@[b].dest@ == cand_v);
                    if old_taken[a]@ == cand_v {
                        assert(seq_contains_chars(old_taken, cand_v));
                    }
                } else {
                    assert(prev_files.take(i as int)[a] == prev_files[a]);
                    assert(prev_files.take(i as int)[b] == prev_files[b]);
                }
            }
            assert forall|k: int| 0 <= k < i + 1 implies #[trigger] settled_file(*on_disk, entry_view(start[k]), start[k].dest@, files@, k) by {
                if k < i {
                    assert(settled_file(*on_disk, entry_view(start[k]), start[k].dest@, prev_files, k));
                    let (a2, n2) = choose|a2: Seq<Option<u64>>, n2: nat| #[trigger] settled_as(*on_disk, entry_view(start[k]), start[k].dest@, prev_files, k, a2, n2);
                    assert(files@.take(k) =~= prev_files.take(k));
                    assert(files@[k] == prev_files[k]);
                    assert(settled_as(*on_disk, entry_view(start[k]), start[k].dest@, files@, k, a2, n2));
                } else {
                    assert(settled_as(*on_disk, entry_view(start[k]), start[k].dest@, files@, k, ans, n as nat));
                }
            }
        }
        i = i + 1;
    }
    assert(files@.take(files.len() as int) =~= files@);
    Ok(())
}

/// Every group's files are in the scan.
pub open spec fn scan_wf(scan: Scan) -> bool {
    &&& crate::scan::ids_are_positions(scan.files@)
    &&& forall|g: int|
        0 <= g < scan.groups.len() ==> {
            let grp = #[trigger] scan.groups@[g];
            &&& (grp.primary.0 as int) < scan.files.len()
            &&& forall|a: int| 0 <= a < grp.attachments.len() ==> (#[trigger] grp.attachments@[a].0 as int) < scan.files.len()
        }
}

/// The ids below `k` that `included` names, in increasing order.
pub open spec fn ids_upto(included: Seq<GroupId>, k: int) -> Seq<GroupId>
    decreases k,
{
    if k <= 0 {
        seq![]
    } else {
        let r = ids_upto(included, k - 1);
        if included.contains(GroupId((k - 1) as u32)) {
            r.push(GroupId((k - 1) as u32))
        } else {
            r
        }
    }
}

pub proof fn lemma_ids_upto_bound(included: Seq<GroupId>, k: int)
    requires
        0 <= k <= u32::MAX + 1,
    ensures
        ids_upto(included, k).len() <= k,
        forall|j: int| 0 <= j < ids_upto(included, k).len() ==> (#[trigger] ids_upto(included, k)[j]).0 < k,
        forall|a: int, b: int| 0 <= a < b < ids_upto(included, k).len() ==> (#[trigger] ids_upto(included, k)[a]).0
            < (#[trigger] ids_upto(included, k)[b]).0,
    decreases k,
{
    if k > 0 {
        lemma_ids_upto_bound(included, k - 1);
    }
}

pub open spec fn entry_view(f: PlannedFile) -> EntryView {
    EntryView { file: f.file, group: f.group, root: f.root, rel: f.rel@, size: f.size }
}

proof fn lemma_plan_entries_err(scan: Scan, cfg: Config, ordered: Seq<GroupId>, k: int, m: int, imported: DateTime)
    requires
        0 <= k <= m,
        plan_entries(scan, cfg, ordered, k, imported) is Err,
    ensures
        plan_entries(scan, cfg, ordered, m, imported) == plan_entries(scan, cfg, ordered, k, imported),
    decreases m - k,
{
    if k < m {
        lemma_plan_entries_err(scan, cfg, ordered, k, m - 1, imported);
    }
}

proof fn lemma_attachment_entries_err(
    scan: Scan,
    cfg: Config,
    gid: GroupId,
    seq: u32,
    imported: DateTime,
    root: Root,
    dir: Seq<char>,
    k: int,
    m: int,
)
    requires
        0 <= k <= m,
        attachment_entries(scan, cfg, gid, seq, imported, root, dir, k) is Err,
    ensures
        attachment_entries(scan, cfg, gid, seq, imported, root, dir, m) == attachment_entries(
            scan,
            cfg,
            gid,
            seq,
            imported,
            root,
            dir,
            k,
        ),
    decreases m - k,
{
    if k < m {
        lemma_attachment_entries_err(scan, cfg, gid, seq, imported, root, dir, k, m - 1);
    }
}

fn planned(cfg: &Config, root: Root, rel: String, f: &ScannedFile, group: GroupId) -> (p: PlannedFile)
    ensures
        entry_view(p) == (EntryView { file: f.id, group, root, rel: rel@, size: f.size }),
        p.dest@ == join_path(root_path_spec(*cfg, root), rel@),
        p.status == DestStatus::New,
{
    let base = text::chars_of(root_path(cfg, root).as_str());
    let r = text::chars_of(rel.as_str());
    let dest = text::string_of(&paths::join_path_chars(&base, &r));
    PlannedFile { file: f.id, group, root, rel, dest, size: f.size, status: DestStatus::New }
}

fn render_output_exec(cfg: &Config, t: &Template, ctx: &Context, on: bool) -> (r: Result<Option<String>, TemplateError>)
    ensures
        match r {
            Ok(o) => render_output(*cfg, *t, ctx@, on) == Ok::<Option<Seq<char>>, ErrorView>(opt_str(o)),
            Err(e) => render_output(*cfg, *t, ctx@, on) == Err::<Option<Seq<char>>, ErrorView>(e@),
        },
{
    if !on {
        return Ok(None);
    }
    match t.render(ctx) {
        Ok(rel) => {
            let base = text::chars_of(cfg.render_root.as_str());
            let r = text::chars_of(rel.as_str());
            Ok(Some(text::string_of(&paths::join_path_chars(&base, &r))))
        },
        Err(e) => Err(e),
    }
}

/// Build the plan for the included groups, in id (capture) order, numbered from 1.
/// `on_disk` reports the size of the file at a path, if there is one.
pub fn plan<F: Fn(&str) -> Option<u64>>(
    scan: &Scan,
    included: &Vec<GroupId>,
    cfg: &Config,
    imported_at: DateTime,
    on_disk: &F,
) -> (r: Result<Plan, PlanError>)
    requires
        scan_wf(*scan),
        scan.groups.len() < u32::MAX,
        forall|k: int| 0 <= k < included.len() ==> (#[trigger] included@[k]).0 < scan.groups.len(),
        forall|p: &str| #[trigger] call_requires(*on_disk, (p,)),
    ensures
        match r {
            Ok(p) => {
                let ordered = ids_upto(included@, scan.groups.len() as int);
                &&& p.imported_at == imported_at
                &&& p.included@ == ordered
                &&& plan_entries(*scan, *cfg, ordered, ordered.len() as int, imported_at) matches Ok(
                    (es, rs),
                )
                &&& p.files.len() == es.len()
                &&& forall|i: int| 0 <= i < es.len() ==> #[trigger] settled_file(*on_disk, es[i], entry_dest(*cfg, es[i]), p.files@, i)
                &&& distinct_dests(p.files@)
                &&& p.renders@.map_values(|x: PlannedRender| render_view(x)) == rs
            },
            Err(PlanError::Template(e)) => {
                let ordered = ids_upto(included@, scan.groups.len() as int);
                plan_entries(*scan, *cfg, ordered, ordered.len() as int, imported_at) == Err::<
                    (Seq<EntryView>, Seq<RenderView>),
                    ErrorView,
                >(e@)
            },
            Err(PlanError::NoFreeName(d)) => {
                let ordered = ids_upto(included@, scan.groups.len() as int);
                &&& plan_entries(*scan, *cfg, ordered, ordered.len() as int, imported_at) matches Ok((es, rs))
                &&& stuck_at(*on_disk, *cfg, es, d@)
            },
        },
{
    let ng = scan.groups.len();
    // The included ids, sorted, each once.
    let mut ordered: Vec<GroupId> = Vec::new();
    let mut g: usize = 0;
    while g < ng
        invariant
            g <= ng,
            ng == scan.groups.len(),
            ng < u32::MAX,
            ordered@ == ids_upto(included@, g as int),
        decreases ng - g,
    {
        let id = GroupId(g as u32);
        let mut found = false;
        let mut k: usize = 0;
        while k < included.len()
            invariant
                k <= included.len(),
                found == exists|j: int| 0 <= j < k && included@[j] == id,
            decreases included.len() - k,
        {
            if included[k].0 == id.0 {
                found = true;
            }
            k = k + 1;
        }
        assert(found == included@.contains(id));
        if found {
            ordered.push(id);
        }
        g = g + 1;
    }
    proof {
        lemma_ids_upto_bound(included@, ng as int);
    }
    let ghost ord = ordered@;
    let mut files: Vec<PlannedFile> = Vec::new();
    let mut renders: Vec<PlannedRender> = Vec::new();
    let mut k: usize = 0;
    assert(files@.map_values(|f: PlannedFile| entry_view(f)) =~= seq![]);
    assert(renders@.map_values(|x: PlannedRender| render_view(x)) =~= seq![]);
    while k < ordered.len()
        invariant
            k <= ordered.len(),
            ord == ordered@,
            ord == ids_upto(included@, scan.groups.len() as int),
            ng == scan.groups.len(),
            ordered.len() <= ng,
            ng < u32::MAX,
            scan_wf(*scan),
            forall|j: int| 0 <= j < ordered.len() ==> (#[trigger] ordered@[j]).0 < ng,
            plan_entries(*scan, *cfg, ord, k as int, imported_at) == Ok::<
                (Seq<EntryView>, Seq<RenderView>),
                ErrorView,
            >((files@.map_values(|f: PlannedFile| entry_view(f)), renders@.map_values(|x: PlannedRender| render_view(x)))),
            forall|i: int| 0 <= i < files.len() ==> (#[trigger] files@[i]).dest@ == join_path(
                root_path_spec(*cfg, files@[i].root),
                files@[i].rel@,
            ) && files@[i].status == DestStatus::New,
        decreases ordered.len() - k,
    {
        let gid = ordered[k];
        let seq: u32 = (k + 1) as u32;
        let group = &scan.groups[gid.0 as usize];
        assert(group == scan.groups@[gid.0 as int]);
        let primary = &scan.files[group.primary.0 as usize];
        let ghost es_before = files@.map_values(|f: PlannedFile| entry_view(f));
        let ghost rs_before = renders@.map_values(|x: PlannedRender| render_view(x));
        let ghost files_before = files@;
        proof {
            assert(plan_entries(*scan, *cfg, ord, k + 1, imported_at) == match group_plan(*scan, *cfg, ord[k as int], (k + 1) as u32, imported_at) {
                Err(e) => Err(e),
                Ok((ges, r)) => Ok::<(Seq<EntryView>, Seq<RenderView>), ErrorView>(
                    (
                        es_before + ges,
                        match r {
                            Some(rv) => rs_before.push(rv),
                            None => rs_before,
                        },
                    ),
                ),
            });
        }
        let (root, template): (Root, &Template) = match group.kind {
            Kind::Raw => (Root::Archive, &cfg.templates.raw),
            Kind::Image => (Root::Archive, &cfg.templates.image),
            Kind::Video => (Root::Video, &cfg.templates.video),
            Kind::Sidecar | Kind::Other => (Root::Other, &cfg.templates.other),
        };
        assert(root == primary_root(group.kind) && *template == primary_template(*cfg, group.kind));
        let ctx = context(scan, group, primary, seq, imported_at);
        let rel = match template.render(&ctx) {
            Ok(rel) => rel,
            Err(e) => {
                assert(*template == primary_template(*cfg, group.kind));
                assert(ctx@ == context_spec(*scan, *group, *primary, seq, imported_at));
                assert(group_plan(*scan, *cfg, ord[k as int], (k + 1) as u32, imported_at) == Err::<(Seq<EntryView>, Option<RenderView>), ErrorView>(e@));
                proof {
                    lemma_plan_entries_err(*scan, *cfg, ord, k + 1, ord.len() as int, imported_at);
                }
                return Err(PlanError::Template(e));
            },
        };
        let relv = text::chars_of(rel.as_str());
        let primary_dir = paths::parent_of(&relv);
        let pf = planned(cfg, root, rel, primary, gid);
        files.push(pf);
        // Attachments.
        let na = group.attachments.len();
        let mut m: usize = 0;
        assert(files@.subrange(files_before.len() + 1int, files.len() as int).map_values(|f: PlannedFile| entry_view(f)) =~= seq![]);
        while m < na
            invariant
                m <= na,
                ord == ids_upto(included@, scan.groups.len() as int),
                ord[k as int] == gid,
                seq == (k + 1) as u32,
                k < ord.len(),
                plan_entries(*scan, *cfg, ord, k as int, imported_at) == Ok::<(Seq<EntryView>, Seq<RenderView>), ErrorView>((es_before, rs_before)),
                *primary == scan.files@[group.primary.0 as int],
                root == primary_root(group.kind),
                render_spec(primary_template(*cfg, group.kind).parts_spec(), context_spec(*scan, *group, *primary, seq, imported_at)) == Ok::<Seq<char>, ErrorView>(relv@),
                primary_dir@ == parent(relv@),
                na == group.attachments.len(),
                group == scan.groups@[gid.0 as int],
                scan_wf(*scan),
                (gid.0 as int) < scan.groups.len(),
                files.len() == files_before.len() + 1 + m,
                forall|i: int| 0 <= i < files_before.len() ==> #[trigger] files@[i] == files_before[i],
                entry_view(files@[files_before.len() as int]) == (EntryView {
                    file: group.primary,
                    group: gid,
                    root,
                    rel: relv@,
                    size: primary.size,
                }),
                attachment_entries(*scan, *cfg, gid, seq, imported_at, root, primary_dir@, m as int) == Ok::<
                    Seq<EntryView>,
                    ErrorView,
                >(files@.subrange(files_before.len() + 1int, files.len() as int).map_values(|f: PlannedFile| entry_view(f))),
                forall|i: int| 0 <= i < files.len() ==> (#[trigger] files@[i]).dest@ == join_path(
                    root_path_spec(*cfg, files@[i].root),
                    files@[i].rel@,
                ) && files@[i].status == DestStatus::New,
            decreases na - m,
        {
            let aid = group.attachments[m];
            assert((aid.0 as int) < scan.files.len());
            let f = &scan.files[aid.0 as usize];
            assert(f.id == aid);
            let ghost before = files@;
            if group.kind == Kind::Raw && f.kind == Kind::Image {
                let actx = context(scan, group, f, seq, imported_at);
                match cfg.templates.paired_image.render(&actx) {
                    Ok(arel) => {
                        let af = planned(cfg, Root::Archive, arel, f, gid);
                        files.push(af);
                    },
                    Err(e) => {
                        assert(attachment_entry(*scan, *cfg, gid, aid, seq, imported_at, root, primary_dir@) == Err::<EntryView, ErrorView>(e@));
                        assert(attachment_entries(*scan, *cfg, gid, seq, imported_at, root, primary_dir@, m + 1) == Err::<Seq<EntryView>, ErrorView>(e@));
                        proof {
                            lemma_attachment_entries_err(*scan, *cfg, gid, seq, imported_at, root, primary_dir@, m + 1, na as int);
                        }
                        assert(group_plan(*scan, *cfg, ord[k as int], (k + 1) as u32, imported_at) == Err::<(Seq<EntryView>, Option<RenderView>), ErrorView>(e@));
                        proof {
                            lemma_plan_entries_err(*scan, *cfg, ord, k + 1, ord.len() as int, imported_at);
                        }
                        return Err(PlanError::Template(e));
                    },
                }
            } else {
                let name = paths::file_name_of(&text::chars_of(f.path.as_str()));
                let arel = text::string_of(&paths::join_path_chars(&primary_dir, &name));
                let af = planned(cfg, root, arel, f, gid);
                files.push(af);
            }
            proof {
                let f2 = |x: PlannedFile| entry_view(x);
                assert(files@.subrange(files_before.len() + 1int, files.len() as int) =~= before.subrange(
                    files_before.len() + 1int,
                    before.len() as int,
                ).push(files@[files.len() - 1]));
                assert(files@.subrange(files_before.len() + 1int, files.len() as int).map_values(f2) =~= before.subrange(
                    files_before.len() + 1int,
                    before.len() as int,
                ).map_values(f2).push(f2(files@[files.len() - 1])));
                assert(attachment_entry(*scan, *cfg, gid, aid, seq, imported_at, root, primary_dir@) == Ok::<EntryView, ErrorView>(f2(files@[files.len() - 1])));
                assert(group.attachments@[m as int] == aid);
            }
            m = m + 1;
        }
        let ghost ges = files@.subrange(files_before.len() as int, files.len() as int).map_values(
            |f: PlannedFile| entry_view(f),
        );
        proof {
            assert(ges =~= seq![entry_view(files@[files_before.len() as int])] + files@.subrange(
                files_before.len() + 1int,
                files.len() as int,
            ).map_values(|f: PlannedFile| entry_view(f)));
            assert(files@.map_values(|f: PlannedFile| entry_view(f)) =~= es_before + ges) by {
                assert(files_before.map_values(|f: PlannedFile| entry_view(f)) =~= es_before);
                assert forall|i: int| 0 <= i < files_before.len() implies files@[i] == files_before[i] by {}
            }
        }
        let ghost rs_mid = renders@;
        if group.kind == Kind::Raw && (cfg.outputs.exr || cfg.outputs.jpeg) {
            let exr = match render_output_exec(cfg, &cfg.templates.render_exr, &ctx, cfg.outputs.exr) {
                Ok(x) => x,
                Err(e) => {
                    assert(group_render(*scan, *cfg, gid, seq, imported_at) == Err::<Option<RenderView>, ErrorView>(e@));
                    assert(group_plan(*scan, *cfg, ord[k as int], (k + 1) as u32, imported_at) == Err::<(Seq<EntryView>, Option<RenderView>), ErrorView>(e@));
                    proof {
                        lemma_plan_entries_err(*scan, *cfg, ord, k + 1, ord.len() as int, imported_at);
                    }
                    return Err(PlanError::Template(e));
                },
            };
            let jpeg = match render_output_exec(cfg, &cfg.templates.render_jpeg, &ctx, cfg.outputs.jpeg) {
                Ok(x) => x,
                Err(e) => {
                    assert(group_render(*scan, *cfg, gid, seq, imported_at) == Err::<Option<RenderView>, ErrorView>(e@));
                    assert(group_plan(*scan, *cfg, ord[k as int], (k + 1) as u32, imported_at) == Err::<(Seq<EntryView>, Option<RenderView>), ErrorView>(e@));
                    proof {
                        lemma_plan_entries_err(*scan, *cfg, ord, k + 1, ord.len() as int, imported_at);
                    }
                    return Err(PlanError::Template(e));
                },
            };
            let pr = PlannedRender { group: gid, raw: group.primary, exr, jpeg };
            assert(group_render(*scan, *cfg, gid, seq, imported_at) == Ok::<Option<RenderView>, ErrorView>(Some(render_view(pr))));
            renders.push(pr);
            assert(renders@.map_values(|x: PlannedRender| render_view(x)) =~= rs_before.push(render_view(pr)));
        } else {
            assert(group_render(*scan, *cfg, gid, seq, imported_at) == Ok::<Option<RenderView>, ErrorView>(None));
        }
        assert(group_plan(*scan, *cfg, ord[k as int], (k + 1) as u32, imported_at) matches Ok((x, _)) && x == ges);
        k = k + 1;
    }
    assert(ord.len() == k);
    let mut out_files = files;
    let ghost before_resolve = out_files@;
    let ghost es = before_resolve.map_values(|f: PlannedFile| entry_view(f));
    proof {
        assert forall|i: int| 0 <= i < es.len() implies entry_view(#[trigger] before_resolve[i]) == es[i]
            && before_resolve[i].dest@ == entry_dest(*cfg, es[i]) by {}
    }
    match resolve_collisions(&mut out_files, on_disk) {
        Ok(()) => {},
        Err(e) => {
            proof {
                assert(plan_entries(*scan, *cfg, ord, ord.len() as int, imported_at) == Ok::<(Seq<EntryView>, Seq<RenderView>), ErrorView>(
                    (es, renders@.map_values(|x: PlannedRender| render_view(x))),
                ));
                assert(!(e is Template));
                if let PlanError::NoFreeName(d) = &e {
                    let i = choose|i: int|
                        0 <= i < before_resolve.len() && d@ == before_resolve[i].dest@ && (forall|k: int|
                            0 <= k < i ==> #[trigger] settled_file(*on_disk, entry_view(before_resolve[k]), before_resolve[k].dest@, out_files@, k))
                            && #[trigger] no_free_name(*on_disk, dests(out_files@.take(i)), before_resolve[i].dest@, before_resolve[i].size);
                    assert(entry_view(before_resolve[i]) == es[i]);
                    assert forall|k: int| 0 <= k < i implies #[trigger] settled_file(*on_disk, es[k], entry_dest(*cfg, es[k]), out_files@, k) by {
                        assert(entry_view(before_resolve[k]) == es[k]);
                    }
                    assert(no_free_name(*on_disk, dests(out_files@.take(i)), entry_dest(*cfg, es[i]), es[i].size));
                    assert(out_files@.len() == es.len());
                    assert(d@ == entry_dest(*cfg, es[i]));
                    assert(stuck(*on_disk, *cfg, es, d@, out_files@, i));
                }
            }
            return Err(e);
        },
    }
    proof {
        assert forall|i: int| 0 <= i < es.len() implies #[trigger] settled_file(*on_disk, es[i], entry_dest(*cfg, es[i]), out_files@, i) by {
            assert(entry_view(before_resolve[i]) == es[i]);
        }
    }
    Ok(Plan { imported_at, included: ordered, files: out_files, renders })
}
} // verus!
