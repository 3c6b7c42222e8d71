use spektro_core::catalog::{
    check_clear_prefix, check_label_source, check_source, is_asset_kind, kind_from_str, normalize, primary_rank,
    rel_string, thumb_path, ImportDupes, KeywordError, Role, RootKind,
};
use spektro_core::catalog::{check_new_root, relocation_refused, root_containing, RootError};
use spektro_core::scan::Kind;
use std::collections::HashMap;

#[test]
fn roles_of_files() {
    assert_eq!(Role::for_file("DSCF0001.RAF", Kind::Raw, true), Role::Raw);
    assert_eq!(Role::for_file("DSCF0001.JPG", Kind::Image, false), Role::Jpeg);
    assert_eq!(Role::for_file("DSCF0001.jpeg", Kind::Image, false), Role::Jpeg);
    assert_eq!(Role::for_file("DSCF0001.HIF", Kind::Image, false), Role::Image);
    assert_eq!(Role::for_file("lonely.jpg", Kind::Image, true), Role::Image);
    assert_eq!(Role::for_file("C0001.MP4", Kind::Video, true), Role::Video);
    assert_eq!(Role::for_file("DSCF0001.xmp", Kind::Sidecar, false), Role::Xmp);
    assert_eq!(Role::for_file("C0001M01.XML", Kind::Sidecar, false), Role::Sidecar);
    assert_eq!(Role::for_file("notes.XMP", Kind::Other, false), Role::Xmp);
    assert_eq!(Role::for_file("weird.bin", Kind::Other, false), Role::Other);
    assert_eq!(Role::Jpeg.as_str(), "jpeg");
    assert_eq!(Role::Sidecar.as_str(), "sidecar");
}

#[test]
fn root_kinds_read_back() {
    for k in [RootKind::Archive, RootKind::Folder, RootKind::Render] {
        assert_eq!(RootKind::parse(k.as_str()), k);
    }
    assert_eq!(RootKind::parse("anything else"), RootKind::Folder);
}

#[test]
fn kinds_read_back_and_rank() {
    for k in [Kind::Raw, Kind::Image, Kind::Video, Kind::Sidecar, Kind::Other] {
        assert_eq!(kind_from_str(k.as_str()), k);
    }
    assert_eq!(kind_from_str("RAW"), Kind::Other);
    assert!(primary_rank(Kind::Raw) < primary_rank(Kind::Image));
    assert!(primary_rank(Kind::Image) < primary_rank(Kind::Video));
    assert_eq!(primary_rank(Kind::Sidecar), 3);
    assert!(is_asset_kind(Kind::Video));
    assert!(!is_asset_kind(Kind::Sidecar));
}

#[test]
fn relative_paths_use_forward_slashes() {
    assert_eq!(rel_string("a\\b\\c.jpg"), "a/b/c.jpg");
    assert_eq!(rel_string("a/b"), "a/b");
}

#[test]
fn keywords_are_normalized() {
    assert_eq!(normalize("  blue   sky\t"), Some("blue sky".to_string()));
    assert_eq!(normalize("   "), None);
    assert_eq!(normalize(&"x".repeat(64)), Some("x".repeat(64)));
    assert_eq!(normalize(&"x".repeat(65)), None);
}

#[test]
fn keyword_sources_are_checked() {
    assert_eq!(check_source("user"), Ok(()));
    assert_eq!(check_source("ai:tagger"), Ok(()));
    assert_eq!(check_source("ai:"), Err(KeywordError::BadSource("ai:".into())));
    assert_eq!(
        check_source("robot").unwrap_err().message(),
        "keyword source must be 'user' or 'ai:<name>', got 'robot'"
    );
    assert_eq!(check_clear_prefix("ai:"), Ok(()));
    assert_eq!(check_clear_prefix("us"), Err(KeywordError::ClearsUser));
    assert_eq!(check_clear_prefix(""), Err(KeywordError::ClearsUser));
    assert_eq!(check_label_source("user"), Err(KeywordError::LabelsNeedAi));
    assert_eq!(check_label_source("ai:tagger"), Ok(()));
    assert_eq!(check_label_source("x"), Err(KeywordError::BadSource("x".into())));
}

#[test]
fn thumbnail_paths() {
    assert_eq!(thumb_path("/cache", 12345, 256), "/cache/256/12/12345.jpg");
    assert_eq!(thumb_path("/cache", 7, 1024), "/cache/1024/0/7.jpg");
    assert_eq!(thumb_path("/cache", -1500, 256), "/cache/256/-1/-1500.jpg");
}

#[test]
fn import_dupes_exclude_copies_and_known() {
    let mut d = ImportDupes::default();
    assert!(d.is_empty());
    d.copies.insert(3, 1);
    d.known.insert(5, "/archive/x.jpg".into());
    d.known.insert(3, "/archive/y.jpg".into());
    assert!(!d.is_empty());
    let ex = d.to_exclude();
    assert_eq!(ex.len(), 3);
    assert_eq!(ex[0], 3);
    let mut rest = ex[1..].to_vec();
    rest.sort();
    assert_eq!(rest, vec![3, 5]);
    let _unused: HashMap<u32, u32> = HashMap::new();
}

#[test]
fn nested_photo_roots_are_refused() {
    let parent = Some(("/p".to_string(), RootKind::Folder, 1));
    let err = check_new_root("/p/a", RootKind::Folder, None, &parent).unwrap_err();
    assert_eq!(
        err.message(),
        "/p/a is inside /p (folder root #1), which is already indexed; rescan that root instead"
    );
    // Renders may live inside a photo root, and photos inside a render root.
    assert!(check_new_root("/p/a", RootKind::Render, None, &parent).is_ok());
    let render_parent = Some(("/r".to_string(), RootKind::Render, 2));
    assert!(check_new_root("/r/a", RootKind::Archive, None, &render_parent).is_ok());
    // A folder already in the catalog is reused, unless it is of the other family.
    assert!(check_new_root("/p", RootKind::Archive, Some(RootKind::Folder), &None).is_ok());
    let other = check_new_root("/p", RootKind::Render, Some(RootKind::Folder), &None).unwrap_err();
    assert_eq!(other.message(), "/p is already in the catalog as a folder root");
    assert!(matches!(other, RootError::OtherKind { .. }));
}

#[test]
fn the_deepest_root_holds_a_path() {
    let roots = vec!["/p".to_string(), "/p/a".to_string(), "/q/".to_string(), "/pa".to_string()];
    assert_eq!(root_containing(&roots, "/p/a/one.jpg"), Some(1));
    assert_eq!(root_containing(&roots, "/p/b/one.jpg"), Some(0));
    assert_eq!(root_containing(&roots, "/p"), Some(0));
    assert_eq!(root_containing(&roots, "/q/x"), Some(2));
    assert_eq!(root_containing(&roots, "/pab"), None);
    assert_eq!(root_containing(&roots, "/r"), None);
}

#[test]
fn relocation_needs_a_sample_found_unless_forced() {
    assert!(relocation_refused(false, 2, 0));
    assert!(!relocation_refused(false, 2, 1));
    assert!(!relocation_refused(true, 2, 0));
    assert!(!relocation_refused(false, 0, 0));
}

#[test]
fn a_normalized_keyword_normalizes_to_itself() {
    for k in ["  sunset   glow ", "a\tb\nc", "x"] {
        let once = normalize(k).unwrap();
        assert_eq!(normalize(&once), Some(once.clone()));
    }
    assert_eq!(normalize("  sunset   glow "), Some("sunset glow".to_string()));
}
