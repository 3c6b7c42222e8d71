use spektro_core::plan::{probe, resolve_collisions, PlannedFile, Probe, Root};
use spektro_core::config::Config;
use spektro_core::datetime::DateTime;
use spektro_core::meta::{CaptureMeta, MetaSource};
use spektro_core::plan::{plan, DestStatus};
use spektro_core::scan::{build_groups, classify, FileId, GroupId, Scan, ScannedFile, SourceInfo};
use spektro_core::template::Template;
use spektro_core::tree::tree;
use spektro_core::job::{group_seq, render_task_ids, skips, CopyTally, RenderEntry};
use spektro_core::scan::Kind;

const TMP: &str = "/tmp/plan";

fn scan_fixture() -> Scan {
    let mk = |id: u32, rel: &str, size: u64| {
        let path = format!("{TMP}/{rel}");
        ScannedFile { id: FileId(id), rel: rel.to_string(), kind: classify(&path), path, size, mtime: None }
    };
    let files = vec![
        mk(0, "DCIM/100_FUJI/DSCF0001.RAF", 30),
        mk(1, "DCIM/100_FUJI/DSCF0001.JPG", 5),
        mk(2, "PRIVATE/M4ROOT/CLIP/C0001.MP4", 900),
        mk(3, "PRIVATE/M4ROOT/CLIP/C0001M01.XML", 1),
        mk(4, "PRIVATE/M4ROOT/MEDIAPRO.XML", 1),
    ];
    let mut groups = build_groups(&files);
    groups.sort_by_key(|g| g.primary);
    for (i, g) in groups.iter_mut().enumerate() {
        g.id = GroupId(i as u32);
        g.meta = CaptureMeta {
            captured_at: Some(DateTime { year: 2026, month: 9, day: 15, hour: 10, minute: 0, second: 0 }),
            make: Some("FUJIFILM".into()),
            model: Some("X-T5".into()),
            camera: Some("X-T5".into()),
            iso: None,
            lens: None,
            orientation: None,
            source: MetaSource::Raw,
        };
    }
    Scan { source: SourceInfo { root: TMP.into(), label: "CARD".into(), is_volume: false }, files, groups, errors: vec![] }
}

fn now() -> DateTime {
    DateTime { year: 2026, month: 9, day: 16, hour: 0, minute: 0, second: 0 }
}

#[test]
fn plans_all_roots() {
    let scan = scan_fixture();
    let mut cfg = Config::defaults("/home/me", Some(8));
    cfg.archive_root = format!("{TMP}/archive");
    cfg.video_root = Some(format!("{TMP}/video"));
    cfg.render_root = format!("{TMP}/render");
    cfg.outputs.exr = true;
    let included: Vec<GroupId> = scan.groups.iter().map(|g| g.id).collect();
    let nothing = |_: &str| -> Option<u64> { None };
    let p = plan(&scan, &included, &cfg, now(), &nothing).unwrap();

    let by_file = |id: u32| p.files.iter().find(|f| f.file == FileId(id)).unwrap();
    assert_eq!(by_file(0).dest, format!("{TMP}/archive/2026/2026-09-15/X-T5/DSCF0001.RAF"));
    assert_eq!(by_file(1).dest, format!("{TMP}/archive/2026/2026-09-15/X-T5/DSCF0001.JPG"));
    assert_eq!(by_file(2).dest, format!("{TMP}/video/2026/2026-09-15/video/C0001.MP4"));
    assert_eq!(by_file(3).dest, format!("{TMP}/video/2026/2026-09-15/video/C0001M01.XML"));
    assert_eq!(by_file(4).dest, format!("{TMP}/archive/2026-09-16/other/PRIVATE/M4ROOT/MEDIAPRO.XML"));
    assert_eq!(p.renders.len(), 1);
    assert_eq!(p.renders[0].exr, Some(format!("{TMP}/render/2026/2026-09-15/X-T5/DSCF0001.exr")));
    assert_eq!(p.renders[0].jpeg, Some(format!("{TMP}/render/2026/2026-09-15/X-T5/DSCF0001.jpg")));
    assert!(p.files.iter().all(|f| f.status == DestStatus::New));

    let t = tree(&p, &cfg, &|_: &str| false);
    assert_eq!(t.len(), 3);
    assert_eq!(t[0].files, 3);
    assert_eq!(t[0].bytes, 36);
}

#[test]
fn the_preview_nests_folders_and_marks_what_tokens_made() {
    let scan = scan_fixture();
    let mut cfg = Config::defaults("/home/me", Some(8));
    cfg.archive_root = format!("{TMP}/archive");
    cfg.video_root = Some(format!("{TMP}/video"));
    cfg.render_root = format!("{TMP}/render");
    cfg.outputs.exr = true;
    let included: Vec<GroupId> = scan.groups.iter().map(|g| g.id).collect();
    let nothing = |_: &str| -> Option<u64> { None };
    let p = plan(&scan, &included, &cfg, now(), &nothing).unwrap();
    let exr = format!("{TMP}/render/2026/2026-09-15/X-T5/DSCF0001.exr");
    let t = tree(&p, &cfg, &move |q: &str| q == exr);
    let names: Vec<&str> = t.iter().map(|n| n.name.as_str()).collect();
    assert_eq!(names, vec![format!("{TMP}/archive"), format!("{TMP}/render"), format!("{TMP}/video")]);

    // The archive: two photos under the dated folders, the card's index under "other".
    let archive = &t[0];
    assert!(archive.is_dir && !archive.dynamic);
    let kids: Vec<&str> = archive.children.iter().map(|n| n.name.as_str()).collect();
    assert_eq!(kids, vec!["2026", "2026-09-16"]);
    let year = &archive.children[0];
    assert!(year.dynamic);
    assert_eq!((year.files, year.bytes), (2, 35));
    let imported = &archive.children[1];
    assert!(imported.dynamic);
    let other = &imported.children[0];
    assert_eq!(other.name, "other");
    assert!(!other.dynamic, "a folder written in the template is literal");
    let camera = &year.children[0].children[0];
    assert_eq!(camera.name, "X-T5");
    let raf = &camera.children[0];
    assert_eq!((raf.name.as_str(), raf.is_dir, raf.files, raf.bytes), ("DSCF0001.RAF", false, 1, 30));
    assert_eq!(raf.status, Some(DestStatus::New));
    assert!(!raf.dynamic);

    // Renders count files but no bytes; a render already on disk is marked as such.
    let render = &t[1];
    assert_eq!((render.files, render.bytes), (2, 0));
    let outs = &render.children[0].children[0].children[0].children;
    assert_eq!(outs.len(), 2);
    assert_eq!(outs[0].status, Some(DestStatus::ExistsDifferent));
    assert_eq!(outs[1].status, Some(DestStatus::New));
    let video = &t[2];
    assert_eq!((video.files, video.bytes), (2, 901));
}

#[test]
fn detects_existing_and_collisions() {
    let scan = scan_fixture();
    let mut cfg = Config::defaults("/home/me", Some(8));
    cfg.archive_root = format!("{TMP}/archive");
    cfg.render_root = format!("{TMP}/render");
    // Both the RAF and its JPEG map to the same name -> collision.
    cfg.templates.paired_image = Template::parse("{stem}.RAF").unwrap();
    cfg.templates.raw = Template::parse("{stem}.RAF").unwrap();
    // Pre-existing file with same size for the video.
    let existing = format!("{TMP}/archive/2026/2026-09-15/video/C0001.MP4");
    let on_disk = move |p: &str| -> Option<u64> { if p == existing { Some(900) } else { None } };

    let included: Vec<GroupId> = scan.groups.iter().map(|g| g.id).collect();
    let p = plan(&scan, &included, &cfg, now(), &on_disk).unwrap();
    let by_file = |id: u32| p.files.iter().find(|f| f.file == FileId(id)).unwrap();
    assert_eq!(by_file(0).status, DestStatus::New);
    assert_eq!(by_file(1).status, DestStatus::Collision);
    assert_eq!(by_file(1).dest, format!("{TMP}/archive/DSCF0001_1.RAF"));
    assert_eq!(by_file(2).status, DestStatus::ExistsSameSize);
}

#[test]
fn a_plan_counts_what_it_copies() {
    let scan = scan_fixture();
    let mut cfg = Config::defaults("/home/me", None);
    cfg.archive_root = format!("{TMP}/archive");
    let included: Vec<GroupId> = vec![GroupId(0)];
    let nothing = |_: &str| -> Option<u64> { None };
    let p = plan(&scan, &included, &cfg, now(), &nothing).unwrap();
    assert_eq!(p.files.len(), 2);
    assert_eq!(p.total_bytes(), 35);
    assert_eq!(p.bytes_to_copy(true), 35);
}

#[test]
fn copies_are_counted_and_numbered_by_group() {
    assert!(skips(true, DestStatus::ExistsSameSize));
    assert!(!skips(false, DestStatus::ExistsSameSize));
    assert!(!skips(true, DestStatus::ExistsDifferent));
    let included = vec![GroupId(4), GroupId(2), GroupId(9)];
    assert_eq!(group_seq(&included, GroupId(2)), 2);
    assert_eq!(group_seq(&included, GroupId(7)), 0);
    let mut t = CopyTally::new();
    t.copied_one(10);
    t.copied_one(5);
    t.skipped_one();
    t.failed_one();
    assert_eq!((t.copied, t.skipped, t.failed, t.bytes), (2, 1, 1, 15));
}

#[test]
fn only_primary_raws_are_rendered() {
    let e = |id: u32, kind: Kind, is_primary: bool, copy_failed: bool, has_exr: bool, has_jpeg: bool| RenderEntry {
        id,
        kind,
        is_primary,
        copy_failed,
        has_exr,
        has_jpeg,
    };
    let es = vec![
        e(0, Kind::Raw, true, false, false, false),
        e(1, Kind::Image, false, false, false, false),
        e(2, Kind::Raw, true, true, false, false),
        e(3, Kind::Raw, true, false, false, true),
        e(4, Kind::Video, true, false, false, false),
    ];
    assert_eq!(render_task_ids(&es, true, false, true, false), vec![0, 3], "an import skips failed copies");
    assert_eq!(render_task_ids(&es, false, false, true, false), vec![0, 2, 3]);
    assert_eq!(render_task_ids(&es, false, false, true, true), vec![0, 2], "entry 3 has its JPEG");
    assert_eq!(render_task_ids(&es, false, true, true, true), vec![0, 2, 3], "entry 3 lacks its EXR");
}

fn planned_file(id: u32, rel: &str, size: u64) -> PlannedFile {
    PlannedFile {
        file: FileId(id),
        group: GroupId(id),
        root: Root::Archive,
        rel: rel.to_string(),
        dest: format!("/a/{rel}"),
        size,
        status: DestStatus::New,
    }
}

#[test]
fn a_different_file_on_disk_is_never_overwritten() {
    // /a/x.jpg holds another file; /a/x_1.jpg a file of the same size; /a/y.jpg is free.
    let on_disk = |p: &str| -> Option<u64> {
        match p {
            "/a/x.jpg" => Some(1),
            "/a/x_1.jpg" => Some(10),
            _ => None,
        }
    };
    let mut files = vec![planned_file(0, "x.jpg", 10), planned_file(1, "x.jpg", 10), planned_file(2, "y.jpg", 3)];
    resolve_collisions(&mut files, &on_disk).unwrap();
    assert_eq!((files[0].dest.as_str(), files[0].rel.as_str(), files[0].status), ("/a/x_1.jpg", "x_1.jpg", DestStatus::ExistsSameSize));
    // x.jpg is a stranger's, x_1.jpg was taken by the first file.
    assert_eq!((files[1].dest.as_str(), files[1].status), ("/a/x_2.jpg", DestStatus::Collision));
    assert_eq!((files[2].dest.as_str(), files[2].status), ("/a/y.jpg", DestStatus::New));
}

#[test]
fn a_larger_file_moves_past_different_sizes() {
    let on_disk = |p: &str| -> Option<u64> { if p == "/a/z" || p == "/a/z_1" { Some(2) } else { None } };
    let mut files = vec![planned_file(0, "z", 5)];
    resolve_collisions(&mut files, &on_disk).unwrap();
    assert_eq!((files[0].dest.as_str(), files[0].rel.as_str(), files[0].status), ("/a/z_2", "z_2", DestStatus::ExistsDifferent));
    let mut none: Vec<PlannedFile> = Vec::new();
    assert!(resolve_collisions(&mut none, &on_disk).is_ok());
}

#[test]
fn probes_name_what_a_destination_is() {
    assert_eq!(probe(true, None, 4), Probe::Taken);
    assert_eq!(probe(false, None, 4), Probe::Free);
    assert_eq!(probe(false, Some(4), 4), Probe::SameSize);
    assert_eq!(probe(false, Some(5), 4), Probe::Differs);
}
