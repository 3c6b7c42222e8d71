use spektro_core::meta::{normalise_model, parse_exif_datetime, parse_video_date, tidy_text};
use spektro_core::datetime::DateTime;

#[test]
fn parses_exif_datetime() {
    let t = parse_exif_datetime("2026:09:15 14:03:09").unwrap();
    let s: String = spektro_core::datetime::format(&t, "%Y-%m-%d %H:%M:%S").unwrap().into_iter().collect();
    assert_eq!(s, "2026-09-15 14:03:09");
    assert!(parse_exif_datetime("garbage").is_none());
}

#[test]
fn tidies_exif_text() {
    assert_eq!(tidy_text("XF18-55mmF2.8-4 R LM OIS\", \"\", \"\","), Some("XF18-55mmF2.8-4 R LM OIS".into()));
    assert_eq!(tidy_text("\"X-T10\""), Some("X-T10".into()));
    assert_eq!(tidy_text("XF23mm\0\0"), Some("XF23mm".into()));
    assert_eq!(tidy_text("  "), None);
}

#[test]
fn normalises_models() {
    assert_eq!(normalise_model("FUJIFILM X-T5"), "X-T5");
    assert_eq!(normalise_model("ILCE-7RM5"), "ILCE-7RM5");
    assert_eq!(normalise_model("  X100V  "), "X100V");
}

#[test]
fn tidy_text_keeps_inner_spaces_and_drops_empty_quotes() {
    assert_eq!(tidy_text("XF 23mm F2 R WR"), Some("XF 23mm F2 R WR".into()));
    assert_eq!(tidy_text("\"\""), None);
}

#[test]
fn video_dates_come_in_a_few_shapes() {
    let at = |h: u32, mi: u32, s: u32| Some(DateTime { year: 2024, month: 5, day: 1, hour: h, minute: mi, second: s });
    assert_eq!(parse_video_date("2024-05-01T10:20:30+02:00"), at(10, 20, 30), "RFC 3339, as its local time");
    assert_eq!(parse_video_date("2024-05-01T10:20:30Z"), at(10, 20, 30));
    assert_eq!(parse_video_date("2024-05-01T10:20:30+0200"), at(10, 20, 30));
    assert_eq!(parse_video_date("  2024-05-01 10:20:30 "), at(10, 20, 30));
    assert_eq!(parse_video_date("2024:05:01 10:20:30"), at(10, 20, 30));
    assert_eq!(parse_video_date("2024-05-01T10:20:30"), at(10, 20, 30));
    assert_eq!(parse_video_date("yesterday"), None);
}
