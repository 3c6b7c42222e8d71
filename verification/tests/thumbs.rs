use spektro_core::scan::PreviewSource;
use spektro_core::thumbs::{caller_order, job_for, jobs, pick, src_key, Pick, ThumbAsset, ThumbCandidate};

fn cand(role: &str, file: i64, usable: bool) -> ThumbCandidate {
    ThumbCandidate { role: role.into(), file, abs: format!("/lib/{file}.{role}"), size: 100 + file, mtime: Some(7), usable }
}

fn asset(id: i64, files: Vec<ThumbCandidate>) -> ThumbAsset {
    ThumbAsset { asset: id, files, print: None, hevc: false, existing: None }
}

#[test]
fn the_best_usable_source_is_picked() {
    let files = vec![cand("video", 1, true), cand("raw", 2, true), cand("jpeg", 3, false), cand("jpeg", 4, true)];
    assert_eq!(pick(&None, &files), Some((Pick::File(3), PreviewSource::SidecarJpeg)));
    let files = vec![cand("video", 1, true), cand("raw", 2, true)];
    assert_eq!(pick(&None, &files), Some((Pick::File(1), PreviewSource::EmbeddedPreview)));
    assert_eq!(pick(&Some(cand("print", 9, true)), &files), Some((Pick::Print, PreviewSource::Itself)));
    assert_eq!(pick(&Some(cand("print", 9, false)), &files), Some((Pick::File(1), PreviewSource::EmbeddedPreview)));
    assert_eq!(pick(&None, &vec![cand("image", 5, true)]), Some((Pick::File(0), PreviewSource::Itself)));
    assert_eq!(pick(&None, &vec![cand("video", 6, true)]), Some((Pick::File(0), PreviewSource::VideoFrame)));
    assert_eq!(pick(&None, &vec![cand("raw", 2, false), cand("sidecar", 3, true)]), None);
}

#[test]
fn a_source_key_names_the_file_version() {
    let mut c = cand("jpeg", 12, true);
    assert_eq!(src_key(&c), "jpeg:12:112:7");
    c.mtime = None;
    assert_eq!(src_key(&c), "jpeg:12:112:0");
}

#[test]
fn a_thumbnail_is_redone_only_when_its_source_changed() {
    let mut a = asset(1234, vec![cand("raw", 2, true)]);
    let j = job_for(&a, 256, "/cache", true, false).unwrap();
    assert_eq!(j.asset, 1234);
    assert_eq!(j.src, "/lib/2.raw");
    assert_eq!(j.source, PreviewSource::EmbeddedPreview);
    assert_eq!(j.key, "raw:2:102:7");
    assert_eq!(j.out, "/cache/256/1/1234.jpg");
    a.existing = Some("raw:2:102:7".into());
    assert!(job_for(&a, 256, "/cache", true, false).is_none(), "made from this version already");
    assert!(job_for(&a, 256, "/cache", true, true).is_some(), "unless asked to redo it");
    a.existing = Some("raw:2:102:6".into());
    assert!(job_for(&a, 256, "/cache", true, false).is_some(), "the file changed");
}

#[test]
fn hevc_posters_can_be_left_alone() {
    let mut a = asset(5, vec![cand("video", 1, true)]);
    a.hevc = true;
    assert!(job_for(&a, 256, "/c", false, false).is_none());
    assert!(job_for(&a, 256, "/c", true, false).is_some());
    let jobs = jobs(&vec![a.clone(), asset(6, vec![cand("image", 2, true)]), asset(7, vec![])], 256, "/c", false, false);
    let ids: Vec<i64> = jobs.iter().map(|j| j.asset).collect();
    assert_eq!(ids, vec![6]);
}

#[test]
fn the_callers_order_is_kept() {
    assert_eq!(caller_order(&vec![10, 20, 30, 40], &vec![30, 10, 40, 20]), vec![30, 10, 40, 20]);
    // Not listed: last, in their own order; listed twice: the later place counts.
    assert_eq!(caller_order(&vec![1, 2, 3], &vec![3, 1, 3]), vec![1, 3, 2]);
}

#[test]
fn sources_have_stored_names() {
    assert_eq!(spektro_core::thumbs::source_str(PreviewSource::EmbeddedPreview), "embedded_preview");
    assert_eq!(spektro_core::thumbs::source_str(PreviewSource::NoPreview), "none");
    assert_eq!(spektro_core::meta::meta_source_str(spektro_core::meta::MetaSource::Container), "container");
}
