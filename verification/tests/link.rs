use spektro_core::catalog::Role;
use spektro_core::link::{best_primary, link_target, members_of, merge_candidates, set_primary_needed, LinkFile};
use spektro_core::scan::{FileId, Kind};

#[test]
fn a_group_joins_its_primary_asset_or_the_smallest() {
    assert_eq!(link_target(&vec![(10, 7), (11, 3)], 10), Some(7));
    assert_eq!(link_target(&vec![(10, 7), (11, 3)], 12), Some(3));
    assert_eq!(link_target(&vec![], 12), None);
}

#[test]
fn primaries_are_promoted_by_rank() {
    // A RAW arrives for an asset whose primary is its JPEG in another group.
    assert!(set_primary_needed(Some(5), &Some("image".into()), Some(0), &vec![6], 6, Kind::Raw, false));
    // The same RAW stays primary; rewritten only when its content changed.
    assert!(!set_primary_needed(Some(6), &Some("raw".into()), Some(0), &vec![6], 6, Kind::Raw, false));
    assert!(set_primary_needed(Some(6), &Some("raw".into()), Some(0), &vec![6], 6, Kind::Raw, true));
    // A JPEG does not displace a RAW elsewhere.
    assert!(!set_primary_needed(Some(5), &Some("raw".into()), Some(0), &vec![6], 6, Kind::Image, false));
    // ...unless that RAW is missing, or part of this group.
    assert!(set_primary_needed(Some(5), &Some("raw".into()), Some(1), &vec![6], 6, Kind::Image, false));
    assert!(set_primary_needed(Some(5), &Some("raw".into()), Some(0), &vec![6, 5], 6, Kind::Image, false));
    assert!(set_primary_needed(None, &None, None, &vec![6], 6, Kind::Video, false));
}

#[test]
fn emptied_assets_are_listed_once_in_order() {
    assert_eq!(merge_candidates(&vec![(1, 9), (2, 4), (3, 9), (4, 7)], 7), vec![4, 9]);
    assert!(merge_candidates(&vec![(1, 7)], 7).is_empty());
}

#[test]
fn a_vanished_primary_falls_back_to_the_best_file() {
    let rows = vec![(1, "video".to_string()), (2, "image".to_string()), (3, "image".to_string())];
    assert_eq!(best_primary(&rows), Some(1));
    assert_eq!(best_primary(&vec![]), None);
}

#[test]
fn members_carry_roles() {
    let files = vec![
        LinkFile { file_id: 100, name: "DSCF0001.RAF".into(), kind: Kind::Raw },
        LinkFile { file_id: 101, name: "DSCF0001.JPG".into(), kind: Kind::Image },
    ];
    let m = members_of(&files, FileId(0), &vec![FileId(1)]);
    assert_eq!(m.len(), 2);
    assert_eq!((m[0].file_id, m[0].role, m[0].is_primary), (100, Role::Raw, true));
    assert_eq!((m[1].file_id, m[1].role, m[1].is_primary), (101, Role::Jpeg, false));
}
