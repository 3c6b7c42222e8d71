use spektro_core::scan::{build_groups, capture_order, classify, is_hidden, FileId, Kind, PreviewSource, ScannedFile};
use spektro_core::datetime::DateTime;
use spektro_core::meta::CaptureMeta;

fn f(id: u32, p: &str, size: u64) -> ScannedFile {
    ScannedFile { id: FileId(id), path: p.to_string(), rel: p.to_string(), kind: classify(p), size, mtime: None }
}

#[test]
fn library_bundles_are_skipped() {
    assert!(is_hidden("second_life-2 Previews.lrdata"));
    assert!(is_hidden("Second Life.cocatalog"));
    assert!(is_hidden("second_life-2.lrcat"));
    assert!(is_hidden("Photos Library.photoslibrary"));
    assert!(!is_hidden("second life"));
    assert!(!is_hidden("DSCF0001.RAF"));
}

#[test]
fn classifies() {
    assert_eq!(classify("DCIM/100_FUJI/DSCF0001.RAF"), Kind::Raw);
    assert_eq!(classify("DCIM/100MSDCF/DSC00001.ARW"), Kind::Raw);
    assert_eq!(classify("DCIM/100MSDCF/DSC00001.JPG"), Kind::Image);
    assert_eq!(classify("PRIVATE/M4ROOT/CLIP/C0001.MP4"), Kind::Video);
    assert_eq!(classify("PRIVATE/M4ROOT/CLIP/C0001M01.XML"), Kind::Sidecar);
    assert_eq!(classify("PRIVATE/M4ROOT/THMBNL/C0001T01.JPG"), Kind::Other);
    assert_eq!(classify("MEDIAPRO.XML"), Kind::Sidecar);
    assert_eq!(classify("weird.bin"), Kind::Other);
}

#[test]
fn groups_raw_with_paired_jpeg_and_video_with_sidecar() {
    let files = vec![
        f(0, "DCIM/100_FUJI/DSCF0001.RAF", 30),
        f(1, "DCIM/100_FUJI/DSCF0001.JPG", 5),
        f(2, "DCIM/100_FUJI/DSCF0002.RAF", 30),
        f(3, "PRIVATE/M4ROOT/CLIP/C0001.MP4", 900),
        f(4, "PRIVATE/M4ROOT/CLIP/C0001M01.XML", 1),
        f(5, "PRIVATE/M4ROOT/MEDIAPRO.XML", 1),
        f(6, "DCIM/100_FUJI/lonely.JPG", 4),
    ];
    let groups = build_groups(&files);
    let find = |id: u32| groups.iter().find(|g| g.primary == FileId(id)).unwrap();
    for (j, g) in groups.iter().enumerate() {
        assert_eq!(g.id.0 as usize, j);
    }
    for i in 0..files.len() as u32 {
        let n = groups.iter().filter(|g| g.primary == FileId(i) || g.attachments.contains(&FileId(i))).count();
        assert_eq!(n, 1, "file {i} is in exactly one group");
    }

    let raw1 = find(0);
    assert_eq!(raw1.attachments, vec![FileId(1)]);
    assert_eq!(raw1.preview, PreviewSource::SidecarJpeg);
    assert_eq!(raw1.preview_file, Some(FileId(1)));

    let raw2 = find(2);
    assert!(raw2.attachments.is_empty());
    assert_eq!(raw2.preview, PreviewSource::EmbeddedPreview);

    let vid = find(3);
    assert_eq!(vid.attachments, vec![FileId(4)]);

    let mediapro = find(5);
    assert_eq!(mediapro.kind, Kind::Sidecar);

    let lonely = find(6);
    assert_eq!(lonely.kind, Kind::Image);
    assert_eq!(lonely.preview, PreviewSource::Itself);

    // Every file is in exactly one group.
    let mut seen: Vec<FileId> = groups.iter().flat_map(|g| std::iter::once(g.primary).chain(g.attachments.iter().copied())).collect();
    seen.sort();
    assert_eq!(seen, (0..7).map(FileId).collect::<Vec<_>>());
}

#[test]
fn hidden_names() {
    assert!(is_hidden(".DS_Store"));
    assert!(is_hidden("Thumbs.db"));
    assert!(is_hidden("desktop.ini"));
    assert!(!is_hidden("thumbs.db"));
}

#[test]
fn file_names_split_into_stem_and_extension() {
    let file = f(0, "DCIM/100_FUJI/DSCF0001.RAF", 1);
    assert_eq!(file.stem(), "DSCF0001");
    assert_eq!(file.ext(), "RAF");
    assert_eq!(file.rel_dir(), "DCIM/100_FUJI");
    assert_eq!(f(1, "top.jpg", 1).rel_dir(), ".");
}

#[test]
fn groups_come_in_capture_order_and_undated_last() {
    let files = vec![
        f(0, "b/late.jpg", 1),
        f(1, "undated2.jpg", 1),
        f(2, "a/early.jpg", 1),
        f(3, "undated1.jpg", 1),
        f(4, "z/same.jpg", 1),
        f(5, "a-b/same.jpg", 1),
    ];
    let at = |h: u32| Some(DateTime { year: 2024, month: 5, day: 1, hour: h, minute: 0, second: 0 });
    let mut groups = build_groups(&files);
    for g in groups.iter_mut() {
        g.meta = CaptureMeta::from_time(match g.primary.0 {
            0 => at(12),
            2 => at(8),
            4 | 5 => at(10),
            _ => None,
        });
    }
    let ordered = capture_order(&files, groups);
    let prim: Vec<u32> = ordered.iter().map(|g| g.primary.0).collect();
    // Ties at 10:00 go by path: "a-b/same.jpg" sorts before "z/same.jpg".
    assert_eq!(prim, vec![2, 5, 4, 0, 3, 1]);
    let ids: Vec<u32> = ordered.iter().map(|g| g.id.0).collect();
    assert_eq!(ids, vec![0, 1, 2, 3, 4, 5]);
}
