//! The cancel flag that a running import, index or print run checks between steps.

use std::sync::atomic::AtomicBool;
use std::sync::atomic::Ordering;
use std::sync::Arc;
use crate::plan::DestStatus;
use crate::scan::{GroupId, Kind};
use vstd::prelude::*;

verus! {

/// A flag shared by a job and whoever may cancel it; clones share the flag. What a read sees
/// depends on every thread that holds a clone, so no contract here speaks of it.
#[derive(Clone)]
pub struct Cancel(Arc<AtomicBool>);

impl Cancel {
    /// A flag that is not yet set.
    pub fn new() -> (r: Cancel) {
        Cancel(Arc::new(AtomicBool::new(false)))
    }

    /// Set the flag, for this value and every clone of it.
    pub fn cancel(&self) {
        self.0.store(true, Ordering::Relaxed)
    }

    /// Whether the flag has been set, here or through a clone.
    pub fn is_cancelled(&self) -> (r: bool) {
        self.0.load(Ordering::Relaxed)
    }
}

/// A planned file is skipped, not copied, when skipping is on and the destination already
/// holds a file of the same size.
pub fn skips(skip_existing: bool, status: DestStatus) -> (r: bool)
    ensures
        r == (skip_existing && status == DestStatus::ExistsSameSize),
{
    skip_existing && status == DestStatus::ExistsSameSize
}

/// The position of the first `g` in `included`.
pub open spec fn first_pos(included: Seq<GroupId>, g: GroupId, n: int) -> Option<int>
    decreases n,
{
    if n <= 0 {
        None
    } else {
        match first_pos(included, g, n - 1) {
            Some(i) => Some(i),
            None => if included[n - 1] == g {
                Some(n - 1)
            } else {
                None
            },
        }
    }
}

/// A group's number in its import: its place among the included groups, from 1; 0 when it
/// is not among them.
pub fn group_seq(included: &Vec<GroupId>, g: GroupId) -> (r: u32)
    requires
        included.len() < u32::MAX,
    ensures
        r == match first_pos(included@, g, included.len() as int) {
            Some(i) => i + 1,
            None => 0,
        },
{
    let mut i: usize = 0;
    while i < included.len()
        invariant
            i <= included.len(),
            included.len() < u32::MAX,
            first_pos(included@, g, i as int) is None,
        decreases included.len() - i,
    {
        if included[i] == g {
            proof {
                lemma_first_pos_stays(included@, g, i + 1, included.len() as int);
            }
            return (i + 1) as u32;
        }
        i = i + 1;
    }
    0
}

proof fn lemma_first_pos_stays(included: Seq<GroupId>, g: GroupId, k: int, n: int)
    requires
        0 < k <= n,
        first_pos(included, g, k) is Some,
    ensures
        first_pos(included, g, n) == first_pos(included, g, k),
    decreases n - k,
{
    if k < n {
        lemma_first_pos_stays(included, g, k, n - 1);
    }
}

/// What the copy phase did, in counts.
#[derive(Clone, Copy, Debug, Default)]
pub struct CopyTally {
    pub copied: usize,
    pub skipped: usize,
    pub failed: usize,
    pub bytes: u64,
}

impl CopyTally {
    /// Nothing yet.
    pub fn new() -> (r: CopyTally)
        ensures
            r.copied == 0 && r.skipped == 0 && r.failed == 0 && r.bytes == 0,
    {
        CopyTally { copied: 0, skipped: 0, failed: 0, bytes: 0 }
    }

    /// A file was copied, `bytes` long.
    pub fn copied_one(&mut self, bytes: u64)
        requires
            old(self).copied < usize::MAX,
            old(self).bytes + bytes <= u64::MAX,
        ensures
            *final(self) == (CopyTally { copied: (old(self).copied + 1) as usize, bytes: (old(self).bytes + bytes) as u64, ..*old(self) }),
    {
        self.copied = self.copied + 1;
        self.bytes = self.bytes + bytes;
    }

    /// A file was skipped.
    pub fn skipped_one(&mut self)
        requires
            old(self).skipped < usize::MAX,
        ensures
            *final(self) == (CopyTally { skipped: (old(self).skipped + 1) as usize, ..*old(self) }),
    {
        self.skipped = self.skipped + 1;
    }

    /// A file could not be copied.
    pub fn failed_one(&mut self)
        requires
            old(self).failed < usize::MAX,
        ensures
            *final(self) == (CopyTally { failed: (old(self).failed + 1) as usize, ..*old(self) }),
    {
        self.failed = self.failed + 1;
    }
}

/// A manifest entry as the choice of what to render sees it: its id, kind, whether it is its
/// group's primary, whether its copy failed, and whether an EXR and a JPEG of it are on disk.
#[derive(Clone, Copy, Debug)]
pub struct RenderEntry {
    pub id: u32,
    pub kind: Kind,
    pub is_primary: bool,
    pub copy_failed: bool,
    pub has_exr: bool,
    pub has_jpeg: bool,
}

/// Entry `e` is rendered: a primary RAW (whose copy did not fail, when `skip_failed`), and,
/// with `only_missing`, one that lacks an output that is asked for.
pub open spec fn renders(e: RenderEntry, skip_failed: bool, exr: bool, jpeg: bool, only_missing: bool) -> bool {
    &&& e.kind == Kind::Raw
    &&& e.is_primary
    &&& !(skip_failed && e.copy_failed)
    &&& only_missing ==> ((exr && !e.has_exr) || (jpeg && !e.has_jpeg))
}

/// The ids of the entries among the first `n` that are rendered, in order.
pub open spec fn render_ids(es: Seq<RenderEntry>, skip_failed: bool, exr: bool, jpeg: bool, only_missing: bool, n: int) -> Seq<u32>
    decreases n,
{
    if n <= 0 {
        seq![]
    } else if renders(es[n - 1], skip_failed, exr, jpeg, only_missing) {
        render_ids(es, skip_failed, exr, jpeg, only_missing, n - 1).push(es[n - 1].id)
    } else {
        render_ids(es, skip_failed, exr, jpeg, only_missing, n - 1)
    }
}

/// The entries to render, in manifest order. An import renders its primary RAWs whose copy
/// did not fail (`skip_failed`); a re-render takes every primary RAW, and with `only_missing`
/// only those lacking an asked-for output (`exr`, `jpeg`).
pub fn render_task_ids(entries: &Vec<RenderEntry>, skip_failed: bool, exr: bool, jpeg: bool, only_missing: bool) -> (r: Vec<u32>)
    ensures
        r@ == render_ids(entries@, skip_failed, exr, jpeg, only_missing, entries.len() as int),
{
    let mut out: Vec<u32> = Vec::new();
    let mut i: usize = 0;
    while i < entries.len()
        invariant
            i <= entries.len(),
            out@ == render_ids(entries@, skip_failed, exr, jpeg, only_missing, i as int),
        decreases entries.len() - i,
    {
        let e = entries[i];
        let wanted = (exr && !e.has_exr) || (jpeg && !e.has_jpeg);
        if e.kind == Kind::Raw && e.is_primary && !(skip_failed && e.copy_failed) && (!only_missing || wanted) {
            out.push(e.id);
        }
        i = i + 1;
    }
    out
}

} // verus!
