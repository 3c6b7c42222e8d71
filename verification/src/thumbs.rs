//! Which thumbnails need making. A thumbnail remembers which version of which file it was made
//! from (its source key); it is made again only when that changes, or when asked to redo it.

use crate::catalog::{thumb_file, thumb_path};
use crate::decode::{signed_decimal, signed_decimal_of};
use crate::scan::PreviewSource;
use crate::text;
use vstd::prelude::*;

verus! {

/// A file a thumbnail could be made from: its role in the photo (`print` for a JPEG print),
/// its id, where it is, its size and modification time, and whether it can be read now (on
/// an online root and still there).
#[derive(Clone, Debug)]
pub struct ThumbCandidate {
    pub role: String,
    pub file: i64,
    pub abs: String,
    pub size: i64,
    pub mtime: Option<i64>,
    pub usable: bool,
}

/// What is known of one photo when deciding its thumbnail: its files, its newest usable-or-not
/// print when prints are preferred, whether its video is HEVC, and the source key of the
/// thumbnail it has, if any.
#[derive(Clone, Debug)]
pub struct ThumbAsset {
    pub asset: i64,
    pub files: Vec<ThumbCandidate>,
    pub print: Option<ThumbCandidate>,
    pub hevc: bool,
    pub existing: Option<String>,
}

/// A thumbnail to make.
#[derive(Debug, Clone)]
pub struct ThumbJob {
    pub asset: i64,
    pub size: u32,
    pub src: String,
    pub source: PreviewSource,
    pub key: String,
    pub out: String,
}

/// Which file a thumbnail is made from.
#[derive(Clone, Copy, Debug, PartialEq, Eq, Structural)]
pub enum Pick {
    /// The photo's print.
    Print,
    /// The photo's file at this position.
    File(usize),
}

/// The first usable file with role `role`.
pub open spec fn first_usable(files: Seq<ThumbCandidate>, role: Seq<char>, n: int) -> Option<int>
    decreases n,
{
    if n <= 0 {
        None
    } else {
        match first_usable(files, role, n - 1) {
            Some(i) => Some(i),
            None => if files[n - 1].role@ == role && files[n - 1].usable {
                Some(n - 1)
            } else {
                None
            },
        }
    }
}

/// The source of a photo's thumbnail: a usable print; else its camera JPEG, its RAW's
/// embedded preview, the image itself, or a frame of its video, the first usable of each
/// role in that order of preference.
pub open spec fn pick_spec(print: Option<ThumbCandidate>, files: Seq<ThumbCandidate>) -> Option<(Pick, PreviewSource)> {
    let n = files.len() as int;
    if print matches Some(p) && p.usable {
        Some((Pick::Print, PreviewSource::Itself))
    } else if let Some(i) = first_usable(files, "jpeg"@, n) {
        Some((Pick::File(i as usize), PreviewSource::SidecarJpeg))
    } else if let Some(i) = first_usable(files, "raw"@, n) {
        Some((Pick::File(i as usize), PreviewSource::EmbeddedPreview))
    } else if let Some(i) = first_usable(files, "image"@, n) {
        Some((Pick::File(i as usize), PreviewSource::Itself))
    } else if let Some(i) = first_usable(files, "video"@, n) {
        Some((Pick::File(i as usize), PreviewSource::VideoFrame))
    } else {
        None
    }
}

proof fn lemma_first_usable(files: Seq<ThumbCandidate>, role: Seq<char>, n: int)
    requires
        0 <= n <= files.len(),
    ensures
        first_usable(files, role, n) matches Some(i) ==> 0 <= i < n,
    decreases n,
{
    if n > 0 {
        lemma_first_usable(files, role, n - 1);
    }
}

fn first_usable_exec(files: &Vec<ThumbCandidate>, role: &str) -> (r: Option<usize>)
    ensures
        match r {
            Some(i) => first_usable(files@, role@, files.len() as int) == Some(i as int),
            None => first_usable(files@, role@, files.len() as int) is None,
        },
{
    let rc = text::chars_of(role);
    let mut i: usize = 0;
    while i < files.len()
        invariant
            i <= files.len(),
            rc@ == role@,
            first_usable(files@, role@, i as int) is None,
        decreases files.len() - i,
    {
        if files[i].usable && text::eq_chars(&text::chars_of(files[i].role.as_str()), &rc) {
            proof {
                lemma_first_usable_stays(files@, role@, i + 1, files.len() as int);
            }
            return Some(i);
        }
        i = i + 1;
    }
    None
}

proof fn lemma_first_usable_stays(files: Seq<ThumbCandidate>, role: Seq<char>, k: int, n: int)
    requires
        0 < k <= n,
        first_usable(files, role, k) is Some,
    ensures
        first_usable(files, role, n) == first_usable(files, role, k),
    decreases n - k,
{
    if k < n {
        lemma_first_usable_stays(files, role, k, n - 1);
    }
}

/// The source a photo's thumbnail is made from (see [`pick_spec`]).
pub fn pick(print: &Option<ThumbCandidate>, files: &Vec<ThumbCandidate>) -> (r: Option<(Pick, PreviewSource)>)
    ensures
        r == pick_spec(*print, files@),
{
    if let Some(p) = print {
        if p.usable {
            return Some((Pick::Print, PreviewSource::Itself));
        }
    }
    if let Some(i) = first_usable_exec(files, "jpeg") {
        return Some((Pick::File(i), PreviewSource::SidecarJpeg));
    }
    if let Some(i) = first_usable_exec(files, "raw") {
        return Some((Pick::File(i), PreviewSource::EmbeddedPreview));
    }
    if let Some(i) = first_usable_exec(files, "image") {
        return Some((Pick::File(i), PreviewSource::Itself));
    }
    if let Some(i) = first_usable_exec(files, "video") {
        return Some((Pick::File(i), PreviewSource::VideoFrame));
    }
    None
}

/// A file version's source key: `role:file:size:mtime`, with 0 for an unknown time.
pub open spec fn key_spec(c: ThumbCandidate) -> Seq<char> {
    c.role@ + ":"@ + signed_decimal(c.file as int) + ":"@ + signed_decimal(c.size as int) + ":"@ + signed_decimal(
        match c.mtime {
            Some(t) => t as int,
            None => 0,
        },
    )
}

/// The source key of `c`.
pub fn src_key(c: &ThumbCandidate) -> (r: String)
    ensures
        r@ == key_spec(*c),
{
    let mut out = text::chars_of(c.role.as_str());
    text::push_str(&mut out, ":");
    text::push_chars(&mut out, &signed_decimal_of(c.file));
    text::push_str(&mut out, ":");
    text::push_chars(&mut out, &signed_decimal_of(c.size));
    text::push_str(&mut out, ":");
    let t: i64 = match c.mtime {
        Some(t) => t,
        None => 0,
    };
    text::push_chars(&mut out, &signed_decimal_of(t));
    text::string_of(&out)
}

/// The candidate a pick names.
pub open spec fn picked(a: ThumbAsset, p: Pick) -> ThumbCandidate {
    match p {
        Pick::Print => a.print->Some_0,
        Pick::File(i) => a.files@[i as int],
    }
}

/// The job for photo `a` at `size`, if one is needed: none without a source; none for an
/// HEVC video frame when those are not wanted; none when the thumbnail it has was made from
/// the same file version, unless `force`.
pub open spec fn job_spec(a: ThumbAsset, size: u32, dir: Seq<char>, hevc_ok: bool, force: bool) -> Option<(Pick, PreviewSource, Seq<char>)> {
    match pick_spec(a.print, a.files@) {
        None => None,
        Some((p, source)) => {
            let key = key_spec(picked(a, p));
            if source == PreviewSource::VideoFrame && !hevc_ok && a.hevc {
                None
            } else if !force && (a.existing matches Some(e) && e@ == key) {
                None
            } else {
                Some((p, source, key))
            }
        },
    }
}

/// `j` is the job [`job_spec`] describes for photo `a`.
pub open spec fn job_is(j: ThumbJob, a: ThumbAsset, size: u32, dir: Seq<char>, p: Pick, source: PreviewSource, key: Seq<char>) -> bool {
    &&& j.asset == a.asset
    &&& j.size == size
    &&& j.src@ == picked(a, p).abs@
    &&& j.source == source
    &&& j.key@ == key
    &&& j.out@ == thumb_file(dir, a.asset, size)
}

/// The thumbnail job for one photo, if it needs one.
pub fn job_for(a: &ThumbAsset, size: u32, dir: &str, hevc_ok: bool, force: bool) -> (r: Option<ThumbJob>)
    ensures
        match job_spec(*a, size, dir@, hevc_ok, force) {
            None => r is None,
            Some((p, source, key)) => r matches Some(j) && job_is(j, *a, size, dir@, p, source, key),
        },
{
    match pick(&a.print, &a.files) {
        None => None,
        Some((p, source)) => {
            let c = match p {
                Pick::Print => a.print.as_ref().unwrap(),
                Pick::File(i) => {
                    proof {
                        lemma_first_usable(a.files@, "jpeg"@, a.files.len() as int);
                        lemma_first_usable(a.files@, "raw"@, a.files.len() as int);
                        lemma_first_usable(a.files@, "image"@, a.files.len() as int);
                        lemma_first_usable(a.files@, "video"@, a.files.len() as int);
                    }
                    &a.files[i]
                },
            };
            assert(*c == picked(*a, p));
            let key = src_key(c);
            if source == PreviewSource::VideoFrame && !hevc_ok && a.hevc {
                return None;
            }
            if !force {
                if let Some(e) = &a.existing {
                    if text::eq_chars(&text::chars_of(e.as_str()), &text::chars_of(key.as_str())) {
                        return None;
                    }
                }
            }
            let src = text::string_of(&text::chars_of(c.abs.as_str()));
            Some(ThumbJob { asset: a.asset, size, src, source, key, out: thumb_path(dir, a.asset, size) })
        },
    }
}

/// `j` is the job photo `a` needs.
pub open spec fn job_ok(j: ThumbJob, a: ThumbAsset, size: u32, dir: Seq<char>, hevc_ok: bool, force: bool) -> bool {
    match job_spec(a, size, dir, hevc_ok, force) {
        Some((p, source, key)) => job_is(j, a, size, dir, p, source, key),
        None => false,
    }
}

/// The positions of the photos among the first `k` that need a job, in order.
pub open spec fn needing(assets: Seq<ThumbAsset>, size: u32, dir: Seq<char>, hevc_ok: bool, force: bool, k: int) -> Seq<int>
    decreases k,
{
    if k <= 0 {
        seq![]
    } else if job_spec(assets[k - 1], size, dir, hevc_ok, force) is Some {
        needing(assets, size, dir, hevc_ok, force, k - 1).push(k - 1)
    } else {
        needing(assets, size, dir, hevc_ok, force, k - 1)
    }
}

/// The thumbnails to make at `size` for `assets`, in their order: one for each photo that
/// needs one (see [`job_spec`]).
pub fn jobs(assets: &Vec<ThumbAsset>, size: u32, dir: &str, hevc_ok: bool, force: bool) -> (r: Vec<ThumbJob>)
    ensures
        ({
            let idx = needing(assets@, size, dir@, hevc_ok, force, assets.len() as int);
            &&& r.len() == idx.len()
            &&& forall|k: int|
                0 <= k < r.len() ==> #[trigger] job_ok(r@[k], assets@[idx[k]], size, dir@, hevc_ok, force)
        }),
{
    let mut out: Vec<ThumbJob> = Vec::new();
    let mut i: usize = 0;
    while i < assets.len()
        invariant
            i <= assets.len(),
            ({
                let idx = needing(assets@, size, dir@, hevc_ok, force, i as int);
                &&& out.len() == idx.len()
                &&& forall|k: int|
                    0 <= k < out.len() ==> #[trigger] job_ok(out@[k], assets@[idx[k]], size, dir@, hevc_ok, force)
            }),
        decreases assets.len() - i,
    {
        let ghost before = needing(assets@, size, dir@, hevc_ok, force, i as int);
        match job_for(&assets[i], size, dir, hevc_ok, force) {
            Some(j) => {
                out.push(j);
                proof {
                    let idx = needing(assets@, size, dir@, hevc_ok, force, i + 1);
                    assert(idx == before.push(i as int));
                    assert forall|k: int| 0 <= k < out.len() implies #[trigger] job_ok(out@[k], assets@[idx[k]], size, dir@, hevc_ok, force) by {
                        if k < before.len() {
                            assert(idx[k] == before[k]);
                        }
                    }
                }
            },
            None => {},
        }
        i = i + 1;
    }
    out
}

/// Where photo `a` stands in the caller's list: its last position there, else after all.
pub open spec fn rank_in(ids: Seq<i64>, a: i64) -> int
    decreases ids.len(),
{
    if ids.len() == 0 {
        usize::MAX as int
    } else if ids.last() == a {
        ids.len() - 1
    } else {
        rank_in(ids.drop_last(), a)
    }
}

/// Where `x` goes among `t`: before the first photo that ranks after it.
pub open spec fn rank_place(ids: Seq<i64>, t: Seq<i64>, x: i64) -> int
    decreases t.len(),
{
    if t.len() == 0 {
        0
    } else if rank_in(ids, x) < rank_in(ids, t[0]) {
        0
    } else {
        1 + rank_place(ids, t.drop_first(), x)
    }
}

/// `order` sorted by rank in `ids`; photos of equal rank keep their order.
pub open spec fn by_rank(ids: Seq<i64>, order: Seq<i64>) -> Seq<i64>
    decreases order.len(),
{
    if order.len() == 0 {
        seq![]
    } else {
        let t = by_rank(ids, order.drop_last());
        let p = rank_place(ids, t, order.last());
        t.take(p).push(order.last()) + t.skip(p)
    }
}

fn rank_exec(ids: &Vec<i64>, a: i64) -> (r: usize)
    ensures
        r == rank_in(ids@, a),
{
    let mut j: usize = ids.len();
    assert(ids@.take(j as int) =~= ids@);
    while j > 0
        invariant
            j <= ids.len(),
            rank_in(ids@, a) == rank_in(ids@.take(j as int), a),
        decreases j,
    {
        assert(ids@.take(j as int).drop_last() =~= ids@.take(j - 1));
        if ids[j - 1] == a {
            return j - 1;
        }
        j = j - 1;
    }
    usize::MAX
}

/// The photos in the order the caller listed them (usually what is on screen, top to bottom).
pub fn caller_order(order: &Vec<i64>, ids: &Vec<i64>) -> (r: Vec<i64>)
    ensures
        r@ == by_rank(ids@, order@),
{
    let mut out: Vec<i64> = Vec::new();
    let mut ranks: Vec<usize> = Vec::new();
    let mut k: usize = 0;
    assert(ids@.take(ids.len() as int) =~= ids@);
    while k < order.len()
        invariant
            k <= order.len(),
            out@ == by_rank(ids@, order@.take(k as int)),
            ranks.len() == out.len(),
            forall|m: int| 0 <= m < out.len() ==> #[trigger] ranks@[m] == rank_in(ids@, out@[m]),
        decreases order.len() - k,
    {
        let x = order[k];
        let rx = rank_exec(ids, x);
        let ghost t = out@;
        assert(order@.take(k + 1).drop_last() =~= order@.take(k as int));
        assert(order@.take(k + 1).last() == x);
        let mut p: usize = 0;
        assert(t.skip(0) =~= t);
        while p < out.len() && !(rx < ranks[p])
            invariant
                p <= out.len(),
                t == out@,
                rx == rank_in(ids@, x),
                ranks.len() == out.len(),
                forall|m: int| 0 <= m < out.len() ==> #[trigger] ranks@[m] == rank_in(ids@, out@[m]),
                rank_place(ids@, t, x) == p + rank_place(ids@, t.skip(p as int), x),
            decreases out.len() - p,
        {
            assert(t.skip(p as int)[0] == t[p as int]);
            assert(t.skip(p as int).drop_first() =~= t.skip(p + 1));
            p = p + 1;
        }
        proof {
            if p < out.len() {
                assert(t.skip(p as int)[0] == t[p as int]);
            }
        }
        let ghost rs = ranks@;
        out.insert(p, x);
        ranks.insert(p, rx);
        assert(out@ =~= t.take(p as int).push(x) + t.skip(p as int));
        assert forall|m: int| 0 <= m < out.len() implies #[trigger] ranks@[m] == rank_in(ids@, out@[m]) by {
            if m < p {
                assert(ranks@[m] == rs[m] && out@[m] == t[m]);
            } else if m > p {
                assert(ranks@[m] == rs[m - 1] && out@[m] == t[m - 1]);
            }
        }
        k = k + 1;
    }
    assert(order@.take(order.len() as int) =~= order@);
    out
}

/// How a thumbnail row writes where its picture came from.
pub open spec fn source_name(s: PreviewSource) -> Seq<char> {
    match s {
        PreviewSource::SidecarJpeg => "sidecar_jpeg"@,
        PreviewSource::EmbeddedPreview => "embedded_preview"@,
        PreviewSource::Itself => "itself"@,
        PreviewSource::VideoFrame => "video_frame"@,
        PreviewSource::NoPreview => "none"@,
    }
}

/// The name of a preview source, as the catalog stores it.
pub fn source_str(s: PreviewSource) -> (r: &'static str)
    ensures
        r@ == source_name(s),
{
    match s {
        PreviewSource::SidecarJpeg => "sidecar_jpeg",
        PreviewSource::EmbeddedPreview => "embedded_preview",
        PreviewSource::Itself => "itself",
        PreviewSource::VideoFrame => "video_frame",
        PreviewSource::NoPreview => "none",
    }
}

} // verus!
