use spektro_core::print::{verdict, Verdict};
use spektro_core::print::{choose_rel, slug, with_extension, with_suffix, PrintError};

#[test]
fn output_names_get_the_preset_when_taken() {
    assert_eq!(slug("Portra 400 on Portra Endura"), "portra-400-on-portra-endura");
    assert_eq!(with_suffix("2024/2024-10-04/X-T10/DSCF0001.jpg", "portra"), "2024/2024-10-04/X-T10/DSCF0001-portra.jpg");
    assert_eq!(with_suffix("a.exr", "x-2"), "a-x-2.exr");

    // The render root: d/B.jpg is a render of this asset with this preset (ours to overwrite),
    // d/C.jpg a render with another preset, d/D.jpg someone else's file.
    let ours = |rel: &str| -> Result<bool, String> {
        Ok(match rel {
            "d/B.jpg" => true,
            "d/C.jpg" | "d/D.jpg" => false,
            _ => true,
        })
    };
    let mut taken: Vec<String> = Vec::new();
    // Free: the template path.
    assert_eq!(choose_rel("d/A.jpg", "Velvia 50", &mut taken, &ours).unwrap(), "d/A.jpg");
    // Same batch, same path -> suffixed.
    assert_eq!(choose_rel("d/A.jpg", "Velvia 50", &mut taken, &ours).unwrap(), "d/A-velvia-50.jpg");
    let mut taken: Vec<String> = Vec::new();
    assert_eq!(choose_rel("d/B.jpg", "Velvia 50", &mut taken, &ours).unwrap(), "d/B.jpg");
    assert_eq!(choose_rel("d/C.jpg", "Velvia 50", &mut taken, &ours).unwrap(), "d/C-velvia-50.jpg");
    // An unrelated file on disk is never overwritten.
    assert_eq!(choose_rel("d/D.jpg", "Velvia 50", &mut taken, &ours).unwrap(), "d/D-velvia-50.jpg");
}

#[test]
fn slugs_of_odd_names() {
    assert_eq!(slug("  --Ektar!! 100--  "), "ektar-100");
    assert_eq!(slug("???"), "preset");
    assert_eq!(slug("ÉCLAIR"), "clair");
}

#[test]
fn extensions_are_replaced_or_added() {
    assert_eq!(with_extension("2024/DSCF0001.RAF", "jpg"), "2024/DSCF0001.jpg");
    assert_eq!(with_extension("DSCF0001", "exr"), "DSCF0001.exr");
    assert_eq!(with_suffix("dir/noext", "p"), "dir/noext-p");
}

#[test]
fn numbered_candidates_follow_the_slug() {
    let mut taken: Vec<String> = vec!["x.jpg".into(), "x-look.jpg".into()];
    let free = |_: &str| -> Result<bool, String> { Ok(true) };
    assert_eq!(choose_rel("x.jpg", "Look", &mut taken, &free).unwrap(), "x-look-2.jpg");
    assert_eq!(taken.len(), 3);
}

#[test]
fn every_name_taken_is_an_error() {
    let mut taken: Vec<String> = Vec::new();
    let never = |_: &str| -> Result<bool, String> { Ok(false) };
    let e = choose_rel("x.jpg", "Look", &mut taken, &never).unwrap_err();
    assert_eq!(e, PrintError::NoFreeName("x.jpg".into()));
    assert_eq!(e.message(), "no free output name for x.jpg");
    let broken = |_: &str| -> Result<bool, String> { Err("db locked".into()) };
    assert_eq!(choose_rel("x.jpg", "Look", &mut taken, &broken).unwrap_err(), PrintError::Catalog("db locked".into()));
    assert!(taken.is_empty());
}

#[test]
fn a_failure_on_a_later_candidate_is_returned() {
    let mut taken: Vec<String> = vec!["x.jpg".into()];
    let ask = |p: &str| -> Result<bool, String> { if p == "x-look.jpg" { Err("busy".into()) } else { Ok(true) } };
    assert_eq!(choose_rel("x.jpg", "Look", &mut taken, &ask).unwrap_err(), PrintError::Catalog("busy".into()));
    assert_eq!(taken, vec!["x.jpg".to_string()]);
}

#[test]
fn a_stranger_file_is_never_chosen() {
    // Only the third candidate is ours to write.
    let mut taken: Vec<String> = Vec::new();
    let ours = |p: &str| -> Result<bool, String> { Ok(p == "x-look-2.jpg") };
    assert_eq!(choose_rel("x.jpg", "Look", &mut taken, &ours).unwrap(), "x-look-2.jpg");
    assert_eq!(taken, vec!["x-look-2.jpg".to_string()]);
}

#[test]
fn verdicts_follow_the_answer() {
    assert_eq!(verdict(true, None), Verdict::Next);
    assert_eq!(verdict(false, Some(Ok(true))), Verdict::Take);
    assert_eq!(verdict(false, Some(Ok(false))), Verdict::Next);
    assert_eq!(verdict(false, Some(Err("e".into()))), Verdict::Fail("e".into()));
}
