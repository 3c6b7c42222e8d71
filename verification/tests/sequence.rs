use spektro_core::meta::CaptureMeta;
use spektro_core::scan::{build_groups, classify, source_info, FileId, GroupId, Scan, ScannedFile};
use spektro_core::sequence::detect;

fn scan_of(names: &[String]) -> Scan {
    let files: Vec<ScannedFile> = names
        .iter()
        .enumerate()
        .map(|(i, n)| {
            let path = format!("/shoot/{n}");
            ScannedFile { id: FileId(i as u32), kind: classify(&path), path, rel: n.clone(), size: 5, mtime: None }
        })
        .collect();
    let mut groups = build_groups(&files);
    groups.sort_by_key(|g| g.primary);
    for (i, g) in groups.iter_mut().enumerate() {
        g.id = GroupId(i as u32);
        g.meta = CaptureMeta::from_time(None);
    }
    Scan { source: source_info("/shoot"), files, groups, errors: vec![] }
}

#[test]
fn a_numbered_run_collapses_and_loose_photos_do_not() {
    let mut names: Vec<String> = (1..=12).map(|i| format!("render_{i:04}.png")).collect();
    // Three holiday snaps, numbered but not a sequence at this floor.
    names.extend((1..=3).map(|i| format!("DSCF{i:04}.jpg")));
    let scan = scan_of(&names);
    let seqs = detect(&scan, 4).unwrap();
    assert_eq!(seqs.len(), 1, "one run, not two");
    let s = &seqs[0];
    assert_eq!(s.frames, 12);
    assert_eq!((s.first, s.last), (1, 12));
    assert_eq!(s.members.len(), 12);
    assert!(s.missing.is_empty());
    assert!(s.pattern.contains("render"), "{}", s.pattern);
    assert_eq!(s.bytes, 60);
}

#[test]
fn gaps_in_a_run_are_reported_not_hidden() {
    let names: Vec<String> = (1..=10).filter(|i| *i != 4 && *i != 5).map(|i| format!("shot.{i:04}.png")).collect();
    let scan = scan_of(&names);
    let seqs = detect(&scan, 4).unwrap();
    assert_eq!(seqs.len(), 1);
    assert_eq!(seqs[0].missing, vec![4, 5]);
    assert_eq!(seqs[0].frames, 8);
}

#[test]
fn a_folder_of_plain_photos_has_no_sequences() {
    let names: Vec<String> = ["one.jpg", "two.jpg", "three.jpg", "four.jpg"].iter().map(|s| s.to_string()).collect();
    let scan = scan_of(&names);
    assert!(detect(&scan, 4).unwrap().is_empty());
}

#[test]
fn longer_runs_come_first() {
    let mut names: Vec<String> = (1..=5).map(|i| format!("a_{i:04}.png")).collect();
    names.extend((1..=7).map(|i| format!("b_{i:04}.png")));
    let scan = scan_of(&names);
    let seqs = detect(&scan, 4).unwrap();
    assert_eq!(seqs.len(), 2);
    assert_eq!(seqs[0].frames, 7);
    assert_eq!(seqs[1].frames, 5);
}
