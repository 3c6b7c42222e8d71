use spektro_core::manifest::{archive_root_from, entry_groups, file_facts, own_root, resolve, CopyStatus, OutputKind, RecordedRoots};
use spektro_core::plan::Root;

fn roots() -> RecordedRoots {
    RecordedRoots {
        archive: "/tmp/t/archive".into(),
        video: "/tmp/t/video".into(),
        other: "/tmp/t/archive".into(),
        render: "/tmp/t/render".into(),
    }
}

#[test]
fn roundtrip_and_relocation() {
    let r = roots();
    let path = "/tmp/t/archive/.spektrorganize/imports/20260915T100000Z.json";
    assert_eq!(
        resolve(&r, path, Root::Archive, "2026/2026-09-15/X-T5/DSCF0001.RAF"),
        "/tmp/t/archive/2026/2026-09-15/X-T5/DSCF0001.RAF"
    );
    // Move the archive: entries under the archive root follow, the separate video root does not.
    let moved = "/tmp/t/elsewhere/.spektrorganize/imports/20260915T100000Z.json";
    assert_eq!(
        resolve(&r, moved, Root::Archive, "2026/2026-09-15/X-T5/DSCF0001.RAF"),
        "/tmp/t/elsewhere/2026/2026-09-15/X-T5/DSCF0001.RAF"
    );
    assert_eq!(resolve(&r, moved, Root::Video, "2026/v/C0001.MP4"), "/tmp/t/video/2026/v/C0001.MP4");
}

#[test]
fn a_manifest_outside_an_imports_folder_uses_the_recorded_root() {
    assert_eq!(archive_root_from("/somewhere/x.json", "/rec"), "/rec");
    assert_eq!(archive_root_from("/a/imports/x.json", "/rec"), "/");
    assert_eq!(archive_root_from("imports/x.json", "/rec"), "/rec");
    let r = roots();
    assert_eq!(resolve(&r, "/x/m.json", Root::Other, "o/f.xml"), "/tmp/t/archive/o/f.xml");
    assert_eq!(resolve(&r, "/x/m.json", Root::Render, "r.jpg"), "/tmp/t/render/r.jpg");
}

#[test]
fn output_kinds_and_copy_status() {
    assert_eq!(OutputKind::Exr.ext(), "exr");
    assert_eq!(OutputKind::Jpeg.ext(), "jpg");
    assert_ne!(CopyStatus::Copied, CopyStatus::Failed("x".into()));
}

#[test]
fn entries_are_indexed_by_group_without_failed_copies() {
    let groups = vec![3, 1, 3, 2, 1, 2];
    let failed = vec![false, false, false, true, false, true];
    let g = entry_groups(&groups, &failed);
    assert_eq!(g, vec![(1, vec![1, 4]), (3, vec![0, 2])], "group 2 failed entirely");
    assert!(entry_groups(&vec![], &vec![]).is_empty());
}

#[test]
fn a_file_on_disk_keeps_its_hash_only_at_the_recorded_size() {
    let h = Some("abc".to_string());
    let f = file_facts(Some((10, Some(5))), 10, &h, true);
    assert_eq!((f.size, f.mtime, f.blake3.as_deref(), f.missing), (10, Some(5), Some("abc"), false));
    let f = file_facts(Some((11, None)), 10, &h, true);
    assert_eq!((f.size, f.blake3.as_deref(), f.missing), (11, None, false));
    let f = file_facts(None, 10, &h, true);
    assert_eq!((f.size, f.mtime, f.blake3.as_deref(), f.missing), (10, None, Some("abc"), true));
    let f = file_facts(None, 10, &h, false);
    assert!(!f.missing, "an offline root's files are not missing");
}

#[test]
fn only_a_separate_used_root_gets_its_own_catalog_root() {
    assert!(own_root("/v", "/a", true));
    assert!(!own_root("/a", "/a", true));
    assert!(!own_root("/v", "/a", false));
}
