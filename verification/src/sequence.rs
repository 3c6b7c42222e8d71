//! Numbered image sequences in a scan, collapsed into one thing each.
//!
//! A folder of `render_0001.png … render_0480.png` is one shot, not 480 photos. The runs are
//! found by the `sequitur` crate, which knows the naming conventions; this module maps them
//! back onto the scan's groups. Nothing is skipped: every frame is still copied — it is only
//! the review that collapses.

use crate::plan::scan_wf;
use crate::scan::{Group, Kind, Scan, ScannedFile};
use crate::text;
use vstd::prelude::*;

verus! {

/// A run as `sequitur` reports it: its items' paths in frame order (one per frame), its first
/// and last frame and the frames missing between them, and what its items' names share.
#[derive(Clone, Debug)]
pub struct SeqRun {
    pub paths: Vec<String>,
    pub first: i32,
    pub last: i32,
    pub missing: Vec<i32>,
    /// The prefix all items share, when they do.
    pub prefix: Option<String>,
    /// The extension all items share, when they do.
    pub extension: Option<String>,
    /// The first item's file name.
    pub first_name: Option<String>,
}

pub struct RunView {
    pub paths: Seq<Seq<char>>,
    pub first: i32,
    pub last: i32,
    pub missing: Seq<i32>,
    pub prefix: Option<Seq<char>>,
    pub extension: Option<Seq<char>>,
    pub first_name: Option<Seq<char>>,
}

pub open spec fn opt_chars(o: Option<String>) -> Option<Seq<char>> {
    match o {
        Some(s) => Some(s@),
        None => None,
    }
}

pub open spec fn strs(v: Seq<String>) -> Seq<Seq<char>> {
    v.map_values(|s: String| s@)
}

impl View for SeqRun {
    type V = RunView;

    open spec fn view(&self) -> RunView {
        RunView {
            paths: strs(self.paths@),
            first: self.first,
            last: self.last,
            missing: self.missing@,
            prefix: opt_chars(self.prefix),
            extension: opt_chars(self.extension),
            first_name: opt_chars(self.first_name),
        }
    }
}

pub open spec fn runs_view(v: Seq<SeqRun>) -> Seq<RunView> {
    v.map_values(|r: SeqRun| r@)
}

/// The runs `sequitur`'s `FileSequence::from_paths` finds among `paths` with at least
/// `min_frames` frames each, in its order.
pub uninterp spec fn sequitur_sequences(paths: Seq<Seq<char>>, min_frames: usize) -> Seq<RunView>;

/// `sequitur::FileSequence::from_paths`, each run read back through its accessors (`items`
/// and `Item::path`, `first_frame`, `last_frame`, `missing_frames`, `prefix`,
/// `extension`, `Item::filename`). The contract names the result; the parsing rules are
/// `sequitur`'s and are not stated here.
#[verifier::external_body]
fn sequitur_runs(paths: &Vec<String>, min_frames: usize) -> (r: Vec<SeqRun>)
    ensures
        runs_view(r@) == sequitur_sequences(strs(paths@), min_frames),
{
    let ps: Vec<std::path::PathBuf> = paths.iter().map(Into::into).collect();
    sequitur::FileSequence::from_paths(&ps, min_frames).sequences.iter().map(|s| SeqRun {
        paths: s.items().iter().map(|i| i.path().to_string_lossy().into()).collect(),
        first: s.first_frame(),
        last: s.last_frame(),
        missing: s.missing_frames(),
        prefix: s.prefix().ok().map(Into::into),
        extension: s.extension().ok().map(Into::into),
        first_name: s.items().first().map(|i| i.filename()),
    }).collect()
}

/// A still image of the scan that may be a frame: its group, its primary's path, and the
/// bytes of all the group's files.
#[derive(Clone, Debug)]
pub struct Candidate {
    pub group: u32,
    pub path: String,
    pub bytes: u64,
}

/// A run of numbered files that belong together.
#[derive(Clone, Debug)]
pub struct SeqGroup {
    /// How the run reads, e.g. `render_####.png`.
    pub pattern: String,
    pub frames: usize,
    pub first: i64,
    pub last: i64,
    /// Numbers inside the range that are not on disk.
    pub missing: Vec<i64>,
    /// The scan groups this run covers, in frame order.
    pub members: Vec<u32>,
    pub bytes: u64,
}

pub struct SeqGroupView {
    pub pattern: Seq<char>,
    pub frames: usize,
    pub first: i64,
    pub last: i64,
    pub missing: Seq<i64>,
    pub members: Seq<u32>,
    pub bytes: u64,
}

impl View for SeqGroup {
    type V = SeqGroupView;

    open spec fn view(&self) -> SeqGroupView {
        SeqGroupView {
            pattern: self.pattern@,
            frames: self.frames,
            first: self.first,
            last: self.last,
            missing: self.missing@,
            members: self.members@,
            bytes: self.bytes,
        }
    }
}

pub open spec fn groups_view(v: Seq<SeqGroup>) -> Seq<SeqGroupView> {
    v.map_values(|g: SeqGroup| g@)
}

/// The first candidate before `n` at path `p`.
pub open spec fn cand_at_path(c: Seq<(u32, Seq<char>, int)>, p: Seq<char>, n: int) -> Option<int>
    decreases n,
{
    if n <= 0 {
        None
    } else {
        match cand_at_path(c, p, n - 1) {
            Some(k) => Some(k),
            None => if c[n - 1].1 == p {
                Some(n - 1)
            } else {
                None
            },
        }
    }
}

/// The first candidate before `n` of group `g`.
pub open spec fn cand_of_group(c: Seq<(u32, Seq<char>, int)>, g: u32, n: int) -> Option<int>
    decreases n,
{
    if n <= 0 {
        None
    } else {
        match cand_of_group(c, g, n - 1) {
            Some(k) => Some(k),
            None => if c[n - 1].0 == g {
                Some(n - 1)
            } else {
                None
            },
        }
    }
}

/// The groups of a run's items, in frame order; items that are no candidate are left out.
pub open spec fn run_members(c: Seq<(u32, Seq<char>, int)>, paths: Seq<Seq<char>>) -> Seq<u32>
    decreases paths.len(),
{
    if paths.len() == 0 {
        seq![]
    } else {
        let head = run_members(c, paths.drop_last());
        match cand_at_path(c, paths.last(), c.len() as int) {
            Some(k) => head.push(c[k].0),
            None => head,
        }
    }
}

/// The group of the first candidate at path `p`, if any.
pub open spec fn group_at(c: Seq<(u32, Seq<char>, int)>, p: Seq<char>) -> Option<u32> {
    match cand_at_path(c, p, c.len() as int) {
        Some(k) => Some(c[k].0),
        None => None,
    }
}

proof fn lemma_run_members_filter(c: Seq<(u32, Seq<char>, int)>, paths: Seq<Seq<char>>)
    ensures
        run_members(c, paths) == paths.filter_map(|p: Seq<char>| group_at(c, p)),
        (forall|k: int| 0 <= k < paths.len() ==> #[trigger] group_at(c, paths[k]) is Some) ==> run_members(c, paths).len()
            == paths.len() && forall|k: int| 0 <= k < paths.len() ==> #[trigger] run_members(c, paths)[k] == group_at(
            c,
            paths[k],
        )->0,
    decreases paths.len(),
{
    if paths.len() > 0 {
        let d = paths.drop_last();
        lemma_run_members_filter(c, d);
        let f = |p: Seq<char>| group_at(c, p);
        match f(paths.last()) {
            Some(g) => {
                assert(run_members(c, paths) =~= d.filter_map(f) + seq![g]);
            },
            None => {},
        }
        if forall|k: int| 0 <= k < paths.len() ==> #[trigger] group_at(c, paths[k]) is Some {
            assert forall|k: int| 0 <= k < d.len() implies #[trigger] group_at(c, d[k]) is Some by {
                assert(d[k] == paths[k]);
                assert(group_at(c, paths[k]) is Some);
            }
            assert(group_at(c, paths[paths.len() - 1]) is Some);
            assert forall|k: int| 0 <= k < paths.len() implies #[trigger] run_members(c, paths)[k] == group_at(c, paths[k])->0 by {
                if k < d.len() {
                    assert(d[k] == paths[k]);
                    assert(run_members(c, d)[k] == group_at(c, d[k])->0);
                }
            }
        }
    }
}

/// A run's group lists the groups of the run's items in the run's (frame) order, leaving out
/// the items that are no candidate; when every item is a candidate, its `k`-th member is the
/// group of the run's `k`-th item, and it has one member per frame.
pub proof fn law_members_in_frame_order(c: Seq<(u32, Seq<char>, int)>, r: RunView)
    ensures
        group_of_run(c, r).members == r.paths.filter_map(|p: Seq<char>| group_at(c, p)),
        group_of_run(c, r).frames as int == r.paths.len() as usize as int,
        (forall|k: int| 0 <= k < r.paths.len() ==> #[trigger] group_at(c, r.paths[k]) is Some) ==> group_of_run(c, r).members.len()
            == r.paths.len() && forall|k: int|
            0 <= k < r.paths.len() ==> #[trigger] group_of_run(c, r).members[k] == group_at(c, r.paths[k])->0,
{
    lemma_run_members_filter(c, r.paths);
}

/// The bytes of the members, each counted as its group's first candidate.
pub open spec fn members_bytes(c: Seq<(u32, Seq<char>, int)>, m: Seq<u32>) -> int
    decreases m.len(),
{
    if m.len() == 0 {
        0
    } else {
        members_bytes(c, m.drop_last()) + match cand_of_group(c, m.last(), c.len() as int) {
            Some(k) => c[k].2,
            None => 0,
        }
    }
}

/// How a run reads at a glance: `render_####.png`, or its first file's name when its items
/// share no prefix or extension.
pub open spec fn pattern_of(r: RunView) -> Seq<char> {
    match (r.prefix, r.extension) {
        (Some(p), Some(e)) => p + "####."@ + e,
        _ => match r.first_name {
            Some(n) => n,
            None => seq![],
        },
    }
}

pub open spec fn group_of_run(c: Seq<(u32, Seq<char>, int)>, r: RunView) -> SeqGroupView {
    let m = run_members(c, r.paths);
    SeqGroupView {
        pattern: pattern_of(r),
        frames: r.paths.len() as usize,
        first: r.first as i64,
        last: r.last as i64,
        missing: r.missing.map_values(|f: i32| f as i64),
        members: m,
        bytes: members_bytes(c, m) as u64,
    }
}

/// The runs with at least `min_frames` members, as groups, in the runs' order.
pub open spec fn kept_runs(c: Seq<(u32, Seq<char>, int)>, runs: Seq<RunView>, min_frames: usize) -> Seq<SeqGroupView>
    decreases runs.len(),
{
    if runs.len() == 0 {
        seq![]
    } else {
        let head = kept_runs(c, runs.drop_last(), min_frames);
        if run_members(c, runs.last().paths).len() < min_frames {
            head
        } else {
            head.push(group_of_run(c, runs.last()))
        }
    }
}

/// The position of the first group with fewer frames than `f`.
pub open spec fn first_fewer(s: Seq<SeqGroupView>, f: usize) -> int
    decreases s.len(),
{
    if s.len() == 0 {
        0
    } else if s[0].frames < f {
        0
    } else {
        1 + first_fewer(s.drop_first(), f)
    }
}

/// Groups sorted by frame count, most first, keeping the order of equal counts (a stable
/// sort, as `sort_by` is).
pub open spec fn sort_by_frames(s: Seq<SeqGroupView>) -> Seq<SeqGroupView>
    decreases s.len(),
{
    if s.len() == 0 {
        seq![]
    } else {
        let t = sort_by_frames(s.drop_last());
        let p = first_fewer(t, s.last().frames);
        t.take(p).push(s.last()) + t.skip(p)
    }
}

/// Every kept run's bytes fit in 64 bits.
pub open spec fn bytes_fit(c: Seq<(u32, Seq<char>, int)>, runs: Seq<RunView>) -> bool {
    forall|k: int| 0 <= k < runs.len() ==> members_bytes(c, run_members(c, #[trigger] runs[k].paths)) <= u64::MAX
}

proof fn lemma_first_fewer(s: Seq<SeqGroupView>, f: usize)
    ensures
        0 <= first_fewer(s, f) <= s.len(),
        forall|i: int| 0 <= i < first_fewer(s, f) ==> s[i].frames >= f,
        first_fewer(s, f) < s.len() ==> s[first_fewer(s, f)].frames < f,
    decreases s.len(),
{
    if s.len() > 0 && s[0].frames >= f {
        lemma_first_fewer(s.drop_first(), f);
        assert forall|i: int| 0 <= i < first_fewer(s, f) implies s[i].frames >= f by {
            if i > 0 {
                assert(s[i] == s.drop_first()[i - 1]);
            }
        }
    }
}

fn find_cand_path(c: &Vec<Candidate>, p: &Vec<char>) -> (r: Option<usize>)
    ensures
        match r {
            Some(k) => cand_at_path(cand_views(c@), p@, c.len() as int) == Some(k as int) && k < c.len(),
            None => cand_at_path(cand_views(c@), p@, c.len() as int) is None,
        },
{
    let mut k: usize = 0;
    while k < c.len()
        invariant
            k <= c.len(),
            cand_at_path(cand_views(c@), p@, k as int) is None,
        decreases c.len() - k,
    {
        if text::eq_chars(&text::chars_of(c[k].path.as_str()), p) {
            proof {
                lemma_cand_at_path_stays(cand_views(c@), p@, k as int + 1, c.len() as int);
            }
            return Some(k);
        }
        k = k + 1;
    }
    None
}

fn find_cand_group(c: &Vec<Candidate>, g: u32) -> (r: Option<usize>)
    ensures
        match r {
            Some(k) => cand_of_group(cand_views(c@), g, c.len() as int) == Some(k as int) && k < c.len(),
            None => cand_of_group(cand_views(c@), g, c.len() as int) is None,
        },
{
    let mut k: usize = 0;
    while k < c.len()
        invariant
            k <= c.len(),
            cand_of_group(cand_views(c@), g, k as int) is None,
        decreases c.len() - k,
    {
        if c[k].group == g {
            proof {
                lemma_cand_of_group_stays(cand_views(c@), g, k as int + 1, c.len() as int);
            }
            return Some(k);
        }
        k = k + 1;
    }
    None
}

proof fn lemma_cand_of_group_bound(c: Seq<(u32, Seq<char>, int)>, g: u32, n: int)
    requires
        n <= c.len(),
    ensures
        cand_of_group(c, g, n) matches Some(k) ==> 0 <= k < n,
    decreases n,
{
    if n > 0 {
        lemma_cand_of_group_bound(c, g, n - 1);
    }
}

proof fn lemma_cand_of_group_stays(c: Seq<(u32, Seq<char>, int)>, g: u32, k: int, n: int)
    requires
        0 < k <= n,
        cand_of_group(c, g, k) is Some,
    ensures
        cand_of_group(c, g, n) == cand_of_group(c, g, k),
    decreases n - k,
{
    if k < n {
        lemma_cand_of_group_stays(c, g, k, n - 1);
    }
}

proof fn lemma_cand_at_path_stays(c: Seq<(u32, Seq<char>, int)>, p: Seq<char>, k: int, n: int)
    requires
        0 < k <= n,
        cand_at_path(c, p, k) is Some,
    ensures
        cand_at_path(c, p, n) == cand_at_path(c, p, k),
    decreases n - k,
{
    if k < n {
        lemma_cand_at_path_stays(c, p, k, n - 1);
    }
}

fn members_of_run(c: &Vec<Candidate>, run: &SeqRun) -> (r: Vec<u32>)
    ensures
        r@ == run_members(cand_views(c@), run@.paths),
{
    let mut out: Vec<u32> = Vec::new();
    let mut i: usize = 0;
    while i < run.paths.len()
        invariant
            i <= run.paths.len(),
            out@ == run_members(cand_views(c@), run@.paths.take(i as int)),
        decreases run.paths.len() - i,
    {
        let ghost ps = run@.paths;
        assert(ps.take(i + 1).drop_last() =~= ps.take(i as int));
        assert(ps.take(i + 1).last() == run.paths@[i as int]@);
        let p = text::chars_of(run.paths[i].as_str());
        match find_cand_path(c, &p) {
            Some(k) => out.push(c[k].group),
            None => {},
        }
        i = i + 1;
    }
    assert(run@.paths.take(run.paths.len() as int) =~= run@.paths);
    out
}

fn sum_bytes(c: &Vec<Candidate>, m: &Vec<u32>) -> (r: u64)
    requires
        members_bytes(cand_views(c@), m@) <= u64::MAX,
    ensures
        r == members_bytes(cand_views(c@), m@),
{
    let mut total: u64 = 0;
    let mut i: usize = 0;
    assert(forall|x: int| 0 <= x < c.len() ==> #[trigger] cand_views(c@)[x].2 >= 0);
    proof {
        lemma_members_bytes_mono(cand_views(c@), m@, 0);
    }
    while i < m.len()
        invariant
            i <= m.len(),
            total == members_bytes(cand_views(c@), m@.take(i as int)),
            members_bytes(cand_views(c@), m@) <= u64::MAX,
            forall|x: int| 0 <= x < c.len() ==> #[trigger] cand_views(c@)[x].2 >= 0,
        decreases m.len() - i,
    {
        assert(m@.take(i + 1).drop_last() =~= m@.take(i as int));
        proof {
            lemma_members_bytes_mono(cand_views(c@), m@, i as int + 1);
        }
        match find_cand_group(c, m[i]) {
            Some(k) => {
                total = total + c[k].bytes;
            },
            None => {},
        }
        i = i + 1;
    }
    assert(m@.take(m.len() as int) =~= m@);
    total
}

proof fn lemma_members_bytes_mono(c: Seq<(u32, Seq<char>, int)>, m: Seq<u32>, k: int)
    requires
        0 <= k <= m.len(),
        forall|x: int| 0 <= x < c.len() ==> #[trigger] c[x].2 >= 0,
    ensures
        0 <= members_bytes(c, m.take(k)) <= members_bytes(c, m),
    decreases m.len() - k,
{
    if k < m.len() {
        lemma_members_bytes_mono(c, m, k + 1);
        assert(m.take(k + 1).drop_last() =~= m.take(k));
        lemma_members_bytes_nonneg(c, m.take(k));
        lemma_cand_of_group_bound(c, m[k], c.len() as int);
    } else {
        assert(m.take(k) =~= m);
        lemma_members_bytes_nonneg(c, m);
    }
}

proof fn lemma_members_bytes_nonneg(c: Seq<(u32, Seq<char>, int)>, m: Seq<u32>)
    requires
        forall|x: int| 0 <= x < c.len() ==> #[trigger] c[x].2 >= 0,
    ensures
        members_bytes(c, m) >= 0,
    decreases m.len(),
{
    if m.len() > 0 {
        lemma_members_bytes_nonneg(c, m.drop_last());
        lemma_cand_of_group_bound(c, m.last(), c.len() as int);
    }
}

fn pattern(run: &SeqRun) -> (r: String)
    ensures
        r@ == pattern_of(run@),
{
    match (&run.prefix, &run.extension) {
        (Some(p), Some(e)) => {
            let mut out = text::chars_of(p.as_str());
            text::push_str(&mut out, "####.");
            text::push_str(&mut out, e.as_str());
            text::string_of(&out)
        },
        _ => match &run.first_name {
            Some(n) => n.clone(),
            None => String::new(),
        },
    }
}

fn widen(v: &Vec<i32>) -> (r: Vec<i64>)
    ensures
        r@ == v@.map_values(|f: i32| f as i64),
{
    let mut out: Vec<i64> = Vec::new();
    let mut i: usize = 0;
    while i < v.len()
        invariant
            i <= v.len(),
            out@ == v@.take(i as int).map_values(|f: i32| f as i64),
        decreases v.len() - i,
    {
        out.push(v[i] as i64);
        i = i + 1;
        assert(out@ =~= v@.take(i as int).map_values(|f: i32| f as i64));
    }
    assert(v@.take(v.len() as int) =~= v@);
    out
}

/// The groups for `runs` (as `sequitur` found them among the candidates' paths): each run
/// with at least `min_frames` of the candidates, most frames first.
pub fn detect_runs(c: &Vec<Candidate>, runs: &Vec<SeqRun>, min_frames: usize) -> (r: Vec<SeqGroup>)
    requires
        bytes_fit(cand_views(c@), runs_view(runs@)),
    ensures
        groups_view(r@) == sort_by_frames(kept_runs(cand_views(c@), runs_view(runs@), min_frames)),
{
    let ghost rv = runs_view(runs@);
    let mut out: Vec<SeqGroup> = Vec::new();
    let mut i: usize = 0;
    while i < runs.len()
        invariant
            i <= runs.len(),
            rv == runs_view(runs@),
            bytes_fit(cand_views(c@), rv),
            groups_view(out@) == sort_by_frames(kept_runs(cand_views(c@), rv.take(i as int), min_frames)),
        decreases runs.len() - i,
    {
        assert(rv.take(i + 1).drop_last() =~= rv.take(i as int));
        assert(rv.take(i + 1).last() == runs@[i as int]@);
        let run = &runs[i];
        let members = members_of_run(c, run);
        let ghost head = kept_runs(cand_views(c@), rv.take(i as int), min_frames);
        if members.len() >= min_frames {
            assert(rv[i as int] == run@);
            let bytes = sum_bytes(c, &members);
            let g = SeqGroup {
                pattern: pattern(run),
                frames: run.paths.len(),
                first: run.first as i64,
                last: run.last as i64,
                missing: widen(&run.missing),
                members,
                bytes,
            };
            assert(g@ == group_of_run(cand_views(c@), run@));
            // Insert after every group with at least as many frames.
            let ghost before = groups_view(out@);
            let mut pos: usize = 0;
            while pos < out.len() && out[pos].frames >= g.frames
                invariant
                    pos <= out.len(),
                    forall|x: int| 0 <= x < pos ==> (#[trigger] out@[x]).frames >= g.frames,
                decreases out.len() - pos,
            {
                pos = pos + 1;
            }
            proof {
                lemma_first_fewer(before, g.frames);
                let ff = first_fewer(before, g.frames);
                if ff < pos {
                    assert(before[ff].frames == out@[ff].frames);
                }
                if pos < ff {
                    assert(before[pos as int].frames == out@[pos as int].frames);
                }
                assert(ff == pos);
            }
            let ghost gv = g@;
            out.insert(pos, g);
            proof {
                assert(kept_runs(cand_views(c@), rv.take(i + 1), min_frames) == head.push(gv));
                assert(head.push(gv).drop_last() =~= head);
                assert(groups_view(out@) =~= before.take(pos as int).push(gv) + before.skip(pos as int));
            }
        }
        i = i + 1;
    }
    assert(rv.take(runs.len() as int) =~= rv);
    out
}

/// The candidates of a scan: its still-image groups in order, with their primary's path and
/// the bytes of all their files.
pub open spec fn group_bytes(files: Seq<ScannedFile>, g: Group) -> int {
    files[g.primary.0 as int].size + attachments_bytes(files, g.attachments@.map_values(|a: crate::scan::FileId| a.0))
}

pub open spec fn attachments_bytes(files: Seq<ScannedFile>, ids: Seq<u32>) -> int
    decreases ids.len(),
{
    if ids.len() == 0 {
        0
    } else {
        attachments_bytes(files, ids.drop_last()) + files[ids.last() as int].size
    }
}

pub open spec fn candidates_of(files: Seq<ScannedFile>, groups: Seq<Group>) -> Seq<(u32, Seq<char>, int)>
    decreases groups.len(),
{
    if groups.len() == 0 {
        seq![]
    } else {
        let head = candidates_of(files, groups.drop_last());
        let g = groups.last();
        if g.kind == Kind::Image {
            head.push((g.id.0, files[g.primary.0 as int].path@, group_bytes(files, g)))
        } else {
            head
        }
    }
}

pub open spec fn cand_views(c: Seq<Candidate>) -> Seq<(u32, Seq<char>, int)> {
    c.map_values(|x: Candidate| (x.group, x.path@, x.bytes as int))
}

/// Every still-image group's files fit in 64 bits of bytes.
pub open spec fn sizes_fit(files: Seq<ScannedFile>, groups: Seq<Group>) -> bool {
    forall|k: int| 0 <= k < groups.len() && (#[trigger] groups[k]).kind == Kind::Image ==> group_bytes(files, groups[k]) <= u64::MAX
}

proof fn lemma_attachments_bytes_nonneg(files: Seq<ScannedFile>, ids: Seq<u32>)
    ensures
        attachments_bytes(files, ids) >= 0,
    decreases ids.len(),
{
    if ids.len() > 0 {
        lemma_attachments_bytes_nonneg(files, ids.drop_last());
    }
}

fn group_size(scan: &Scan, g: &Group) -> (r: Option<u64>)
    requires
        (g.primary.0 as int) < scan.files.len(),
        forall|a: int| 0 <= a < g.attachments.len() ==> (#[trigger] g.attachments@[a].0 as int) < scan.files.len(),
    ensures
        match r {
            Some(b) => b == group_bytes(scan.files@, *g),
            None => group_bytes(scan.files@, *g) > u64::MAX,
        },
{
    let ghost ids = g.attachments@.map_values(|a: crate::scan::FileId| a.0);
    let mut total: u64 = scan.files[g.primary.0 as usize].size;
    let mut i: usize = 0;
    while i < g.attachments.len()
        invariant
            i <= g.attachments.len(),
            ids == g.attachments@.map_values(|a: crate::scan::FileId| a.0),
            forall|a: int| 0 <= a < g.attachments.len() ==> (#[trigger] g.attachments@[a].0 as int) < scan.files.len(),
            total == scan.files@[g.primary.0 as int].size + attachments_bytes(scan.files@, ids.take(i as int)),
        decreases g.attachments.len() - i,
    {
        assert(ids.take(i + 1).drop_last() =~= ids.take(i as int));
        let size = scan.files[g.attachments[i].0 as usize].size;
        match total.checked_add(size) {
            Some(t) => total = t,
            None => {
                proof {
                    let rest = ids.skip(i + 1);
                    lemma_attachments_split(scan.files@, ids, i + 1);
                    lemma_attachments_bytes_nonneg(scan.files@, rest);
                }
                return None;
            },
        }
        i = i + 1;
    }
    assert(ids.take(g.attachments.len() as int) =~= ids);
    Some(total)
}

proof fn lemma_attachments_split(files: Seq<ScannedFile>, ids: Seq<u32>, k: int)
    requires
        0 <= k <= ids.len(),
    ensures
        attachments_bytes(files, ids) == attachments_bytes(files, ids.take(k)) + attachments_bytes(files, ids.skip(k)),
    decreases ids.len() - k,
{
    if k < ids.len() {
        lemma_attachments_split(files, ids, k + 1);
        assert(ids.take(k + 1).drop_last() =~= ids.take(k));
        lemma_attachments_suffix(files, ids.skip(k));
        assert(ids.skip(k).drop_first() =~= ids.skip(k + 1));
        assert(ids.skip(k)[0] == ids[k]);
    } else {
        assert(ids.take(k) =~= ids);
        assert(ids.skip(k) =~= Seq::<u32>::empty());
    }
}

proof fn lemma_attachments_suffix(files: Seq<ScannedFile>, ids: Seq<u32>)
    requires
        ids.len() > 0,
    ensures
        attachments_bytes(files, ids) == files[ids[0] as int].size + attachments_bytes(files, ids.drop_first()),
    decreases ids.len(),
{
    if ids.len() > 1 {
        lemma_attachments_suffix(files, ids.drop_last());
        assert(ids.drop_last().drop_first() =~= ids.drop_first().drop_last());
    } else {
        assert(ids.drop_first() =~= Seq::<u32>::empty());
        assert(ids.drop_last() =~= Seq::<u32>::empty());
    }
}

/// The candidates of a scan, or `None` when a group's bytes do not fit in 64 bits.
fn candidates(scan: &Scan) -> (r: Option<Vec<Candidate>>)
    requires
        scan_wf(*scan),
    ensures
        match r {
            Some(c) => sizes_fit(scan.files@, scan.groups@) && cand_views(c@) == candidates_of(scan.files@, scan.groups@),
            None => !sizes_fit(scan.files@, scan.groups@),
        },
{
    let mut out: Vec<Candidate> = Vec::new();
    let mut k: usize = 0;
    while k < scan.groups.len()
        invariant
            k <= scan.groups.len(),
            scan_wf(*scan),
            cand_views(out@) == candidates_of(scan.files@, scan.groups@.take(k as int)),
            sizes_fit(scan.files@, scan.groups@.take(k as int)),
        decreases scan.groups.len() - k,
    {
        let g = &scan.groups[k];
        assert(scan.groups@.take(k + 1).drop_last() =~= scan.groups@.take(k as int));
        assert(scan.groups@[k as int] == *g);
        if g.kind == Kind::Image {
            match group_size(scan, g) {
                Some(b) => {
                    let ghost prev = out@;
                    out.push(Candidate { group: g.id.0, path: scan.files[g.primary.0 as usize].path.clone(), bytes: b });
                    assert(cand_views(out@) =~= cand_views(prev).push((g.id.0, scan.files@[g.primary.0 as int].path@, b as int)));
                },
                None => {
                    assert(!sizes_fit(scan.files@, scan.groups@)) by {
                        assert(scan.groups@[k as int].kind == Kind::Image);
                    }
                    return None;
                },
            }
        }
        proof {
            assert forall|x: int| 0 <= x < k + 1 && (#[trigger] scan.groups@.take(k + 1)[x]).kind == Kind::Image implies group_bytes(
                scan.files@,
                scan.groups@.take(k + 1)[x],
            ) <= u64::MAX by {
                if x < k {
                    assert(scan.groups@.take(k + 1)[x] == scan.groups@.take(k as int)[x]);
                }
            }
        }
        k = k + 1;
    }
    assert(scan.groups@.take(scan.groups.len() as int) =~= scan.groups@);
    Some(out)
}

pub open spec fn cand_paths(c: Seq<(u32, Seq<char>, int)>) -> Seq<Seq<char>> {
    c.map_values(|x: (u32, Seq<char>, int)| x.1)
}

pub open spec fn at_least_two(n: usize) -> usize {
    if n >= 2 {
        n
    } else {
        2
    }
}

fn check_fit(c: &Vec<Candidate>, runs: &Vec<SeqRun>) -> (r: bool)
    ensures
        r == bytes_fit(cand_views(c@), runs_view(runs@)),
{
    let mut k: usize = 0;
    while k < runs.len()
        invariant
            k <= runs.len(),
            forall|x: int| 0 <= x < k ==> members_bytes(cand_views(c@), run_members(cand_views(c@), #[trigger] runs_view(runs@)[x].paths)) <= u64::MAX,
        decreases runs.len() - k,
    {
        let m = members_of_run(c, &runs[k]);
        assert(runs_view(runs@)[k as int] == runs@[k as int]@);
        let mut total: u64 = 0;
        let mut i: usize = 0;
        assert(forall|x: int| 0 <= x < c.len() ==> #[trigger] cand_views(c@)[x].2 >= 0);
        while i < m.len()
            invariant
                i <= m.len(),
                k < runs.len(),
                m@ == run_members(cand_views(c@), runs_view(runs@)[k as int].paths),
                total == members_bytes(cand_views(c@), m@.take(i as int)),
                forall|x: int| 0 <= x < c.len() ==> #[trigger] cand_views(c@)[x].2 >= 0,
            decreases m.len() - i,
        {
            assert(m@.take(i + 1).drop_last() =~= m@.take(i as int));
            match find_cand_group(c, m[i]) {
                Some(x) => match total.checked_add(c[x].bytes) {
                    Some(t) => total = t,
                    None => {
                        proof {
                            lemma_members_bytes_mono(cand_views(c@), m@, i as int + 1);
                            assert(members_bytes(cand_views(c@), m@.take(i + 1)) == total + c@[x as int].bytes);
                            assert(members_bytes(cand_views(c@), run_members(cand_views(c@), runs_view(runs@)[k as int].paths)) > u64::MAX);
                        }
                        return false;
                    },
                },
                None => {},
            }
            i = i + 1;
        }
        assert(m@.take(m.len() as int) =~= m@);
        k = k + 1;
    }
    true
}

/// Find the sequences among a scan's still images: runs of at least `min_frames` numbered
/// files (4 or more is a sensible floor for a camera roll, so `DSCF0001..0003` stay three
/// photos). `None` when a byte total does not fit in 64 bits.
pub fn detect(scan: &Scan, min_frames: usize) -> (r: Option<Vec<SeqGroup>>)
    requires
        scan_wf(*scan),
    ensures
        ({
            let cs = candidates_of(scan.files@, scan.groups@);
            let runs = sequitur_sequences(cand_paths(cs), at_least_two(min_frames));
            &&& r is None <==> !sizes_fit(scan.files@, scan.groups@) || (cs.len() >= min_frames && !bytes_fit(cs, runs))
            &&& r matches Some(v) ==> if cs.len() < min_frames {
                v@.len() == 0
            } else {
                groups_view(v@) == sort_by_frames(kept_runs(cs, runs, min_frames))
            }
        }),
{
    let c = match candidates(scan) {
        Some(c) => c,
        None => return None,
    };
    if c.len() < min_frames {
        return Some(Vec::new());
    }
    let mut paths: Vec<String> = Vec::new();
    let mut i: usize = 0;
    while i < c.len()
        invariant
            i <= c.len(),
            strs(paths@) == cand_paths(cand_views(c@)).take(i as int),
        decreases c.len() - i,
    {
        let ghost prev = paths@;
        paths.push(c[i].path.clone());
        assert(strs(paths@) =~= strs(prev).push(c@[i as int].path@));
        i = i + 1;
        assert(strs(paths@) =~= cand_paths(cand_views(c@)).take(i as int));
    }
    assert(cand_paths(cand_views(c@)).take(c.len() as int) =~= cand_paths(cand_views(c@)));
    let floor = if min_frames >= 2 {
        min_frames
    } else {
        2
    };
    let runs = sequitur_runs(&paths, floor);
    if !check_fit(&c, &runs) {
        return None;
    }
    Some(detect_runs(&c, &runs, min_frames))
}

} // verus!

