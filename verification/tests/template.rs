use spektro_core::datetime::DateTime;
use spektro_core::template::{Context, Template, TemplateError};

fn ctx() -> Context {
    Context {
        captured: Some(DateTime { year: 2026, month: 9, day: 15, hour: 14, minute: 3, second: 9 }),
        imported: DateTime { year: 2026, month: 9, day: 16, hour: 8, minute: 0, second: 0 },
        camera: Some("X-T5".into()),
        make: Some("FUJIFILM".into()),
        model: Some("X-T5".into()),
        stem: "DSCF0001".into(),
        ext: "RAF".into(),
        kind: "raw".into(),
        volume: "UNTITLED".into(),
        rel_dir: "DCIM/100_FUJI".into(),
        seq: 7,
        iso: Some(400),
        lens: Some("XF23mmF2 R WR".into()),
        preset: None,
    }
}

#[test]
fn dir_segments_split_literal_from_token() {
    let t = Template::parse("Archive/{year}/{date}/{camera}/{stem}.{ext}").unwrap();
    assert_eq!(t.dir_segments(), vec![Some("Archive".into()), None, None, None]);
    let t = Template::parse("{camera}-raw/{stem}.{ext}").unwrap();
    assert_eq!(t.dir_segments(), vec![None]);
    let t = Template::parse("{stem}.{ext}").unwrap();
    assert!(t.dir_segments().is_empty());
}

#[test]
fn renders_default_layout() {
    let t = Template::parse("{date:%Y}/{date}/{camera}/{stem}.{ext:lower}").unwrap();
    assert_eq!(t.render(&ctx()).unwrap(), "2026/2026-09-15/X-T5/DSCF0001.raf");
}

#[test]
fn pieces_and_seq() {
    let t = Template::parse("{year}-{month}-{day}_{time}_{seq:3}_{iso}").unwrap();
    assert_eq!(t.render(&ctx()).unwrap(), "2026-09-15_140309_007_400");
}

#[test]
fn escaped_braces_and_literals() {
    let t = Template::parse("{{lit}}/{stem}").unwrap();
    assert_eq!(t.render(&ctx()).unwrap(), "{lit}/DSCF0001");
}

#[test]
fn undated_fallback() {
    let mut c = ctx();
    c.captured = None;
    let t = Template::parse("{date}/{stem}").unwrap();
    assert_eq!(t.render(&c).unwrap(), "undated/DSCF0001");
}

#[test]
fn rel_dir_keeps_slashes_but_values_are_sanitised() {
    let mut c = ctx();
    c.camera = Some("weird:name/with*stuff".into());
    let t = Template::parse("other/{rel_dir}/{camera}/{stem}.{ext}").unwrap();
    assert_eq!(t.render(&c).unwrap(), "other/DCIM/100_FUJI/weird-name/with-stuff/DSCF0001.RAF");
}

#[test]
fn empty_segments_collapse() {
    let mut c = ctx();
    c.lens = None;
    let t = Template::parse("{lens}/{stem}").unwrap();
    assert_eq!(t.render(&c).unwrap(), "DSCF0001");
}

#[test]
fn errors() {
    assert_eq!(Template::parse("{nope}").unwrap_err(), TemplateError::UnknownToken("nope".into()));
    assert_eq!(Template::parse("{stem").unwrap_err(), TemplateError::Unclosed(0));
    assert_eq!(Template::parse("a}b").unwrap_err(), TemplateError::StrayClose(1));
    assert_eq!(Template::parse("{}").unwrap_err(), TemplateError::EmptyToken(0));
    assert_eq!(Template::parse("/abs/{stem}").unwrap_err(), TemplateError::NotRelative);
    assert_eq!(Template::parse("../{stem}").unwrap_err(), TemplateError::NotRelative);
}

#[test]
fn source_and_tokens_read_back() {
    let t = Template::parse("{date}/{camera}/{date:%Y}/{stem}.{ext}").unwrap();
    assert_eq!(t.source(), "{date}/{camera}/{date:%Y}/{stem}.{ext}");
    assert_eq!(t.tokens(), vec!["date".to_string(), "camera".to_string(), "stem".to_string(), "ext".to_string()]);
}

#[test]
fn check_relative_accepts_inner_dots() {
    let t = Template::parse("a..b/{stem}").unwrap();
    assert_eq!(t.check_relative(), Ok(()));
    assert_eq!(Template::parse("a/../{stem}").unwrap_err(), TemplateError::NotRelative);
}

#[test]
fn error_messages_name_the_place() {
    assert_eq!(TemplateError::Unclosed(0).message(), "unclosed '{' at byte 0");
    assert_eq!(TemplateError::StrayClose(12).message(), "unexpected '}' at byte 12");
    assert_eq!(TemplateError::EmptyToken(3).message(), "empty token at byte 3");
    assert_eq!(
        TemplateError::UnknownToken("nope".into()).message(),
        "unknown token 'nope' (valid: date, year, month, day, time, import_date, camera, make, model, stem, ext, kind, volume, rel_dir, seq, iso, lens, preset)"
    );
    assert_eq!(TemplateError::EmptyResult.message(), "template renders to an empty path");
}

#[test]
fn error_positions_are_byte_offsets() {
    assert_eq!(Template::parse("é}").unwrap_err(), TemplateError::StrayClose(2));
    assert_eq!(Template::parse("é{stem").unwrap_err(), TemplateError::Unclosed(2));
    assert_eq!(Template::parse("日本/{}").unwrap_err(), TemplateError::EmptyToken(7));
    assert_eq!(Template::parse("🎞}").unwrap_err(), TemplateError::StrayClose(4));
}

#[test]
fn tokens_are_known_names_each_listed_once() {
    let t = Template::parse("{date}/{stem}-{date:%Y}.{ext}").unwrap();
    assert_eq!(t.tokens(), vec!["date".to_string(), "stem".to_string(), "ext".to_string()]);
}
