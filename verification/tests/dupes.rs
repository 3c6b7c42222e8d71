use spektro_core::dupes::{
    duplicate_sets, dup_scan, finish_group, purge_step, DupCandidate, DupFile, DupGroup, DupScope, PurgeReport, PurgeStep,
};

fn file(id: i64, root: i64, path: &str, indexed_at: &str) -> DupFile {
    DupFile {
        file_id: id,
        asset_id: Some(id),
        root_id: root,
        root: String::new(),
        rel: path.to_string(),
        path: path.to_string(),
        name: path.to_string(),
        kind: "image".to_string(),
        role: Some("image".to_string()),
        indexed_at: indexed_at.to_string(),
        rating: 0,
        flag: "none".to_string(),
        keywords: 0,
        renders: 0,
        present: true,
    }
}

// Two identical 16-byte files in two roots, and a third of the same size with other bytes.
fn candidates() -> Vec<DupCandidate> {
    vec![
        DupCandidate { id: 1, size: 16, root: A },
        DupCandidate { id: 2, size: 16, root: B },
        DupCandidate { id: 3, size: 16, root: B },
    ]
}

fn hashes() -> Vec<(i64, String)> {
    vec![(1, "aaaa".to_string()), (2, "aaaa".to_string()), (3, "bbbb".to_string())]
}

// The catalog's two roots (a = 10, b = 20), as in the original setup: one photo in a, its
// copy and a same-size stranger in b.
const A: i64 = 10;
const B: i64 = 20;

#[test]
fn finds_only_byte_identical_files() {
    let sets = duplicate_sets(&candidates(), &hashes(), &vec![]);
    assert_eq!(sets.len(), 1, "the same-size-but-different file is not a duplicate");
    let ids = &sets[0].2;
    assert!(ids.contains(&1) && ids.contains(&2) && !ids.contains(&3));
    let g = finish_group(16, sets[0].1.clone(), vec![file(1, A, "/a/one.jpg", "now"), file(2, B, "/b/one copy.jpg", "now")])
        .unwrap();
    // All three collided on size, so all three were read.
    let scan = dup_scan(vec![g], 3).unwrap();
    assert_eq!(scan.groups.len(), 1);
    assert_eq!(scan.groups[0].wasted, 16);
    assert_eq!(scan.hashed, 3, "all three collided on size, so all three were read");
}

// What the catalog hands over for a scope: with a narrow scope only the files in its roots.
fn candidates_for(scope: &DupScope) -> Vec<DupCandidate> {
    candidates().into_iter().filter(|c| !scope.narrow() || scope.roots.contains(&c.root)).collect()
}

#[test]
fn scope_limits_the_search_to_the_chosen_folders() {
    // Inside one folder alone there is nothing to find: the copies are in two.
    let only_a = DupScope { roots: vec![A], whole_library: false };
    assert!(duplicate_sets(&candidates_for(&only_a), &hashes(), &only_a.roots).is_empty());
    // Comparing that folder against the rest of the library finds the pair.
    let a_vs_all = DupScope { roots: vec![A], whole_library: true };
    let sets = duplicate_sets(&candidates_for(&a_vs_all), &hashes(), &a_vs_all.roots);
    assert_eq!(sets.len(), 1);
    assert!(sets[0].2.contains(&1) && sets[0].2.contains(&2));
    // Both folders in scope: found without needing the wider comparison.
    let both = DupScope { roots: vec![A, B], whole_library: false };
    assert_eq!(duplicate_sets(&candidates_for(&both), &hashes(), &both.roots).len(), 1);
    // A file without a hash is in no set.
    let partial = vec![(1, "aaaa".to_string())];
    assert!(duplicate_sets(&candidates(), &partial, &vec![]).is_empty());
}

#[test]
fn scopes_narrow_only_without_the_whole_library() {
    assert!(!DupScope::default().narrow());
    assert!(DupScope { roots: vec![1], whole_library: false }.narrow());
    assert!(!DupScope { roots: vec![1], whole_library: true }.narrow());
}

#[test]
fn a_group_lists_the_oldest_copy_first() {
    let g = finish_group(
        100,
        "h".into(),
        vec![
            file(1, 1, "/z/late.jpg", "2024-02-01"),
            file(2, 1, "/b/early.jpg", "2024-01-01"),
            file(3, 1, "/a/early.jpg", "2024-01-01"),
        ],
    )
    .unwrap();
    let ids: Vec<i64> = g.files.iter().map(|f| f.file_id).collect();
    assert_eq!(ids, vec![3, 2, 1]);
    assert_eq!(g.wasted, 200);
    assert!(finish_group(i64::MAX, "h".into(), vec![file(1, 1, "/a", "x"), file(2, 1, "/b", "x"), file(3, 1, "/c", "x")])
        .is_none());
}

#[test]
fn groups_come_largest_waste_first() {
    let mk = |wasted: i64, h: &str| DupGroup { blake3: h.into(), size: wasted, files: vec![], wasted };
    let scan = dup_scan(vec![mk(5, "small"), mk(50, "big"), mk(5, "small2"), mk(20, "mid")], 8).unwrap();
    let order: Vec<&str> = scan.groups.iter().map(|g| g.blake3.as_str()).collect();
    assert_eq!(order, vec!["big", "mid", "small", "small2"]);
    assert_eq!(scan.wasted, 80);
    assert!(dup_scan(vec![mk(i64::MAX, "a"), mk(1, "b")], 2).is_none());
}

#[test]
fn refuses_to_remove_a_file_that_is_not_a_copy() {
    let mut report = PurgeReport::new();
    let step = purge_step(&Some("bbbb".into()), 16, "aaaa", 16, "/b/other.jpg", "/a/one.jpg");
    assert_eq!(step, PurgeStep::NotACopy);
    report.refused("/b/other.jpg".to_string());
    assert_eq!(report.removed, 0);
    assert_eq!(report.failed.len(), 1);
    assert_eq!(report.failed[0].1, "not a copy of the file being kept");
}

#[test]
fn purge_steps_and_counts() {
    let mut report = PurgeReport::new();
    report.removed_one(16);
    report.failed_one("/x".into(), "busy".into());
    assert_eq!((report.removed, report.bytes, report.failed.len()), (1, 16, 1));
    let h = Some("aaaa".to_string());
    assert_eq!(purge_step(&h, 16, "aaaa", 16, "/b/one copy.jpg", "/a/one.jpg"), PurgeStep::Remove);
    assert_eq!(purge_step(&Some("bbbb".into()), 16, "aaaa", 16, "/b/other.jpg", "/a/one.jpg"), PurgeStep::NotACopy);
    assert_eq!(purge_step(&None, 16, "aaaa", 16, "/b/x.jpg", "/a/one.jpg"), PurgeStep::NotACopy);
    assert_eq!(purge_step(&h, 17, "aaaa", 16, "/b/x.jpg", "/a/one.jpg"), PurgeStep::NotACopy);
    assert_eq!(purge_step(&h, 16, "aaaa", 16, "/a/one.jpg", "/a/one.jpg"), PurgeStep::Same);
}
