use spektro_core::decode::{flip_to_exif_orientation, is_raw_path, DecodeError, WhiteBalance};
use spektro_core::film::{preset_candidates, preset_file_name, user_preset_dir};
use spektro_core::job::Cancel;
use spektro_core::look::Frame;

#[test]
fn ordinary_images_are_not_raw() {
    assert!(is_raw_path("a/DSCF0001.RAF"));
    assert!(is_raw_path("a/noext"));
    assert!(!is_raw_path("a/DSCF0001.JPG"));
    assert!(!is_raw_path("x.TiFf"));
}

#[test]
fn flips_become_exif_orientations() {
    assert_eq!(flip_to_exif_orientation(0), 1);
    assert_eq!(flip_to_exif_orientation(3), 3);
    assert_eq!(flip_to_exif_orientation(5), 8);
    assert_eq!(flip_to_exif_orientation(6), 6);
    assert_eq!(flip_to_exif_orientation(7), 1);
}

#[test]
fn decode_errors_read_as_messages() {
    let e = DecodeError::LibRaw { op: "open_file".into(), code: -2, msg: "Unsupported file format".into() };
    assert_eq!(e.message(), "open_file: Unsupported file format (-2)");
    assert_eq!(DecodeError::BadPath.message(), "path is not valid UTF-8/C string");
    assert_eq!(WhiteBalance::default(), WhiteBalance::AsShot);
}

#[test]
fn look_file_names() {
    assert_eq!(preset_file_name("Portra 400 — warm"), "portra-400-warm.json");
    assert_eq!(preset_file_name("!!!"), "look.json");
    assert_eq!(user_preset_dir("/home/me"), "/home/me/.config/spektrorganize/presets");
}

#[test]
fn a_cancel_is_seen_by_every_clone() {
    let c = Cancel::new();
    let c2 = c.clone();
    assert!(!c2.is_cancelled());
    c.cancel();
    assert!(c2.is_cancelled());
}

#[test]
fn frame_bytes() {
    let f = Frame { width: 2, height: 1, rgba: vec![0; 8] };
    assert_eq!(f.bytes(), 8);
}

#[test]
fn a_preset_is_looked_for_in_each_folder_then_here() {
    let dirs = vec!["/home/me/.config/spektrorganize/presets".to_string(), "/app/presets/".to_string()];
    assert_eq!(preset_candidates("/abs/p.json", &dirs, &Some("/work".into())), vec!["/abs/p.json"]);
    assert_eq!(
        preset_candidates("film/portra.json", &dirs, &Some("/work".into())),
        vec![
            "/home/me/.config/spektrorganize/presets/film/portra.json",
            "/home/me/.config/spektrorganize/presets/portra.json",
            "/app/presets/film/portra.json",
            "/app/presets/portra.json",
            "/work/film/portra.json",
        ]
    );
    assert_eq!(preset_candidates("p.json", &vec![], &None), Vec::<String>::new());
}

#[test]
fn preset_file_names_are_dashed_runs() {
    assert_eq!(preset_file_name("Portra 400 on Portra Endura"), "portra-400-on-portra-endura.json");
    for name in ["Portra 400 — warm", "--a--b--", "", "ÉCLAIR 2", "x"] {
        let f = preset_file_name(name);
        let stem = f.strip_suffix(".json").unwrap();
        assert!(!stem.is_empty() && !stem.starts_with('-') && !stem.ends_with('-') && !stem.contains("--"));
        assert!(stem.chars().all(|c| c.is_ascii_lowercase() || c.is_ascii_digit() || c == '-'));
    }
}
