use spektro_core::import_dupes::{find, find_with, primaries, CatalogFile};
use spektro_core::datetime::DateTime;
use spektro_core::meta::CaptureMeta;
use spektro_core::scan::{build_groups, classify, source_info, FileId, GroupId, Scan, ScannedFile};
use std::collections::HashMap;

// A scan of files given by (path, contents); the size is the contents' length.
fn scan_of(root: &str, files: &[(&str, &str)]) -> Scan {
    let files: Vec<ScannedFile> = files
        .iter()
        .enumerate()
        .map(|(i, (p, body))| {
            let path = format!("{root}/{p}");
            ScannedFile { id: FileId(i as u32), kind: classify(&path), path, rel: p.to_string(), size: body.len() as u64, mtime: None }
        })
        .collect();
    let mut groups = build_groups(&files);
    groups.sort_by_key(|g| g.primary);
    for (i, g) in groups.iter_mut().enumerate() {
        g.id = GroupId(i as u32);
        g.meta = CaptureMeta::from_time(None);
    }
    Scan { source: source_info(root), files, groups, errors: vec![] }
}

// A hasher over a fixed set of files: the "hash" is the contents, prefixed.
fn hasher(files: Vec<(String, &'static str)>) -> impl Fn(&str) -> Option<String> {
    let m: HashMap<String, &'static str> = files.into_iter().collect();
    move |p: &str| m.get(p).map(|b| format!("h:{b}"))
}

#[test]
fn copies_inside_the_scan_collapse_to_one() {
    let files = [
        ("all/DSCF0001.JPG", "the same photo.."),
        ("all/backup/DSCF0001.JPG", "the same photo.."),
        ("all/DSCF0002.JPG", "a different one!"),
    ];
    let scan = scan_of("/d", &files);
    let read = hasher(files.iter().map(|(p, b)| (format!("/d/{p}"), *b)).collect());
    let dupes = find(&scan, &vec![], &read);
    assert_eq!(dupes.copies.len(), 1, "one of the two copies is marked");
    assert_eq!(dupes.to_exclude().len(), 1);
    let kept = *dupes.copies.values().next().unwrap();
    let kept_path = scan.groups.iter().find(|g| g.id.0 == kept).map(|g| scan.file(g.primary).path.clone()).unwrap();
    assert!(!kept_path.starts_with("/d/all/backup"), "kept {kept_path}, which is inside the backup folder");
    assert_eq!(dupes.hashed, 2, "only the pair that shares a name and size is read");
}

#[test]
fn photos_already_in_the_catalog_are_marked() {
    let files = [("DSCF0003.JPG", "already imported")];
    let scan = scan_of("/d/card", &files);
    let catalog = vec![CatalogFile {
        name: "DSCF0003.JPG".into(),
        size: 16,
        blake3: None,
        path: "/d/archive/DSCF0003.JPG".into(),
        mtime: None,
    }];
    let read = hasher(vec![
        ("/d/card/DSCF0003.JPG".to_string(), "already imported"),
        ("/d/archive/DSCF0003.JPG".to_string(), "already imported"),
    ]);
    let dupes = find(&scan, &catalog, &read);
    assert_eq!(dupes.known.len(), 1, "the catalog already holds these bytes");
    assert!(dupes.known.values().next().unwrap().ends_with("archive/DSCF0003.JPG"));
}

#[test]
fn a_card_of_new_photos_is_not_read() {
    let files = [("a.jpg", "one"), ("b.jpg", "twotwo")];
    let scan = scan_of("/d", &files);
    let nothing_read = |_: &str| -> Option<String> { panic!("nothing should be read") };
    let dupes = find(&scan, &vec![], &nothing_read);
    assert!(dupes.is_empty());
    assert_eq!(dupes.hashed, 0, "nothing shares a name and size, so nothing is hashed");
}

#[test]
fn the_copy_nearest_the_top_is_kept_and_a_recorded_hash_is_trusted() {
    // Three copies; two lie at the same depth, and of those "x" sorts before "x-a".
    let files = [("x/b/IMG.JPG", "same"), ("x-a/IMG.JPG", "same"), ("x/IMG.JPG", "same")];
    let scan = scan_of("/c", &files);
    let ps = primaries(&scan);
    assert_eq!(ps.len(), 3);
    assert_eq!(ps[0].name, "IMG.JPG");
    // "/c/x/IMG.JPG" and "/c/x-a/IMG.JPG" are shallower than "/c/x/b/IMG.JPG".
    let card = vec![Some("h".to_string()), Some("h".to_string()), Some("h".to_string())];
    let catalog = vec![
        CatalogFile { name: "IMG.JPG".into(), size: 4, blake3: Some("other".into()), path: "/lib/1/IMG.JPG".into(), mtime: None },
        CatalogFile { name: "IMG.JPG".into(), size: 4, blake3: Some("h".into()), path: "/lib/2/IMG.JPG".into(), mtime: None },
        CatalogFile { name: "IMG.JPG".into(), size: 4, blake3: Some("h".into()), path: "/lib/3/IMG.JPG".into(), mtime: None },
        CatalogFile { name: "IMG.JPG".into(), size: 5, blake3: Some("h".into()), path: "/lib/4/IMG.JPG".into(), mtime: None },
    ];
    let rh: Vec<Option<String>> = catalog.iter().map(|c| c.blake3.clone()).collect();
    let d = find_with(&ps, &catalog, &card, &rh);
    assert_eq!(d.hashed, 3);
    let kept = scan.groups.iter().find(|g| scan.file(g.primary).path == "/c/x/IMG.JPG").unwrap().id.0;
    assert_eq!(d.copies.len(), 2);
    assert!(d.copies.values().all(|k| *k == kept));
    assert!(!d.copies.contains_key(&kept));
    assert_eq!(d.known.len(), 3);
    assert!(d.known.values().all(|p| p == "/lib/2/IMG.JPG"), "the first catalog file with the hash");
}

#[test]
fn the_shallower_copy_is_kept_even_when_its_name_sorts_later() {
    // "backup" sorts before "photo.jpg", but the copy nearer the top of the tree is imported.
    let files = [("all/photo.jpg", "same bytes"), ("all/backup/photo.jpg", "same bytes")];
    let scan = scan_of("/d", &files);
    let read = hasher(files.iter().map(|(p, b)| (format!("/d/{p}"), *b)).collect());
    let dupes = find(&scan, &vec![], &read);
    let gid = |p: &str| scan.groups.iter().find(|g| scan.file(g.primary).path == p).unwrap().id.0;
    assert_eq!(dupes.copies.len(), 1);
    assert_eq!(dupes.copies.get(&gid("/d/all/backup/photo.jpg")), Some(&gid("/d/all/photo.jpg")));
    assert_eq!(dupes.hashed, 2);
    assert!(dupes.known.is_empty());
}

#[test]
fn the_same_name_size_and_time_settle_it_without_reading() {
    let t = DateTime { year: 2026, month: 9, day: 15, hour: 10, minute: 4, second: 31 };
    let mut scan = scan_of("/d/card", &[("DSCF0003.JPG", "already imported")]);
    scan.files[0].mtime = Some(t);
    let catalog = vec![CatalogFile {
        name: "DSCF0003.JPG".into(),
        size: 16,
        blake3: None,
        path: "/d/archive/DSCF0003.JPG".into(),
        mtime: Some(t),
    }];
    let nothing_read = |_: &str| -> Option<String> { panic!("nothing should be read") };
    let dupes = find(&scan, &catalog, &nothing_read);
    assert_eq!(dupes.hashed, 0);
    assert_eq!(dupes.known.values().cloned().collect::<Vec<_>>(), vec!["/d/archive/DSCF0003.JPG".to_string()]);
    // Another time: the bytes are compared.
    let mut other = catalog.clone();
    other[0].mtime = Some(DateTime { second: 32, ..t });
    let read = hasher(vec![
        ("/d/card/DSCF0003.JPG".to_string(), "already imported"),
        ("/d/archive/DSCF0003.JPG".to_string(), "something else!!"),
    ]);
    let dupes = find(&scan, &other, &read);
    assert_eq!(dupes.hashed, 1);
    assert!(dupes.known.is_empty());
}
