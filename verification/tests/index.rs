use spektro_core::index::{diff_root, dir_batches, DbEntry, DiskEntry, FileState};

fn disk(rel: &str, size: u64, mtime: i64) -> DiskEntry {
    let name = rel.rsplit('/').next().unwrap().to_string();
    DiskEntry { rel: rel.into(), name, size, mtime: Some(mtime) }
}

fn row(id: i64, rel: &str, size: i64, mtime: i64, missing: bool) -> DbEntry {
    let name = rel.rsplit('/').next().unwrap().to_string();
    DbEntry { id, rel: rel.into(), name, size, mtime: Some(mtime), missing }
}

#[test]
fn unchanged_changed_new_moved_and_gone() {
    let d = vec![
        disk("2024/a.jpg", 10, 1),
        disk("2024/b.jpg", 11, 2),
        disk("2025/c.jpg", 12, 3),
        disk("new/d.jpg", 13, 4),
        disk("2025/e.jpg", 14, 5),
    ];
    let db = vec![
        row(1, "2024/a.jpg", 10, 1, false),
        row(2, "2024/b.jpg", 99, 2, false),
        row(3, "old/c.jpg", 12, 3, false),
        row(4, "gone/x.jpg", 7, 7, false),
        row(5, "gone/y.jpg", 8, 8, true),
        row(6, "2025/e.jpg", 14, 5, true),
    ];
    let r = diff_root(&d, &db);
    assert_eq!(
        r.states,
        vec![FileState::Unchanged(1), FileState::Changed(2), FileState::Moved(3), FileState::New, FileState::Changed(6)]
    );
    assert_eq!(r.gone, vec![3]);
    assert_eq!((r.unchanged, r.changed, r.added, r.moved, r.missing), (1, 2, 1, 1, 1));
    let mut dirty = r.dirty.clone();
    dirty.sort();
    assert_eq!(dirty, vec!["2024", "2025", "gone", "new", "old"]);
}

#[test]
fn a_move_needs_a_single_candidate() {
    // Two vanished rows share the file's name, size and mtime: nobody moves.
    let d = vec![disk("c/p.jpg", 5, 1)];
    let db = vec![row(1, "a/p.jpg", 5, 1, false), row(2, "b/p.jpg", 5, 1, false)];
    let r = diff_root(&d, &db);
    assert_eq!(r.states, vec![FileState::New]);
    assert_eq!(r.gone, vec![0, 1]);
    // Two new files, one candidate: the first takes it, the second is new.
    let d = vec![disk("c/p.jpg", 5, 1), disk("d/p.jpg", 5, 1)];
    let db = vec![row(9, "a/p.jpg", 5, 1, false)];
    let r = diff_root(&d, &db);
    assert_eq!(r.states, vec![FileState::Moved(9), FileState::New]);
    assert!(r.gone.is_empty());
}

#[test]
fn an_unchanged_root_touches_nothing() {
    let d = vec![disk("a/1.jpg", 1, 1), disk("a/2.jpg", 2, 2)];
    let db = vec![row(1, "a/1.jpg", 1, 1, false), row(2, "a/2.jpg", 2, 2, false)];
    let r = diff_root(&d, &db);
    assert_eq!(r.states, vec![FileState::Unchanged(1), FileState::Unchanged(2)]);
    assert!(r.dirty.is_empty());
    assert!(r.gone.is_empty());
}

#[test]
fn writes_go_by_directory_in_name_order() {
    let d = vec![
        disk("2024/a.jpg", 10, 1),
        disk("2024/b.jpg", 11, 2),
        disk("2025/c.jpg", 12, 3),
        disk("new/d.jpg", 13, 4),
        disk("2025/e.jpg", 14, 5),
    ];
    let db = vec![
        row(1, "2024/a.jpg", 10, 1, false),
        row(2, "2024/b.jpg", 99, 2, false),
        row(3, "old/c.jpg", 12, 3, false),
        row(4, "gone/x.jpg", 7, 7, false),
        row(5, "gone/y.jpg", 8, 8, true),
        row(6, "2025/e.jpg", 14, 5, true),
    ];
    let r = diff_root(&d, &db);
    let batches = dir_batches(&d, &db, &r.dirty, &r.gone);
    let dirs: Vec<&str> = batches.iter().map(|b| b.dir.as_str()).collect();
    // "old" only lost a file that moved away: nothing to write there.
    assert_eq!(dirs, vec!["2024", "2025", "gone", "new"]);
    assert_eq!(batches[0].files, vec![0, 1]);
    assert_eq!(batches[1].files, vec![2, 4]);
    assert!(batches[2].files.is_empty());
    assert_eq!(batches[2].gone, vec![4]);
    assert_eq!(batches[3].files, vec![3]);
}
