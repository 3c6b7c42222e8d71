use spektro_core::query::{like_escape, next_day, where_clause, Filter, Sort, SqlValue};

#[test]
fn like_patterns_escape_wildcards() {
    assert_eq!(like_escape("50%_off\\"), "%50\\%\\_off\\\\%");
    assert_eq!(like_escape(""), "%%");
}

#[test]
fn a_date_bound_includes_the_whole_day() {
    assert_eq!(next_day("2026-09-15"), "2026-09-16");
    assert_eq!(next_day("2026-12-31"), "2027-01-01");
    assert_eq!(next_day("2026-09-15T10:00:00"), "2026-09-16");
    assert_eq!(next_day("soon"), "soon\u{ffff}");
}

#[test]
fn an_empty_filter_matches_everything() {
    let (sql, p) = where_clause(&Filter::default());
    assert_eq!(sql, " WHERE 1");
    assert!(p.is_empty());
}

#[test]
fn conditions_and_parameters_line_up() {
    let f = Filter {
        roots: vec![1, 2],
        date_from: Some("2026-01-01".into()),
        date_to: Some("2026-01-31".into()),
        cameras: vec!["X-T5".into(), "".into()],
        keywords: vec!["sky".into()],
        has_render: Some(false),
        kinds: vec!["raw".into()],
        text: Some("blue  100%".into()),
        min_rating: Some(3),
        ai_labelled: Some(true),
        missing: Some(false),
        undated: false,
        flags: vec!["select".into(), "none".into()],
    };
    let (sql, p) = where_clause(&f);
    assert!(sql.starts_with(" WHERE 1 AND f.root_id IN (?, ?) AND a.captured_at >= ? AND a.captured_at < ?"));
    assert!(sql.contains(" AND (a.camera IN (?) OR a.camera IS NULL)"));
    assert!(sql.contains(" AND NOT EXISTS (SELECT 1 FROM renders rr WHERE rr.asset_id = a.id)"));
    assert!(sql.contains(" AND EXISTS (SELECT 1 FROM asset_keywords ak WHERE ak.asset_id = a.id AND ak.source LIKE 'ai:%')"));
    assert!(sql.contains(" AND f.missing = 0 AND a.kind IN (?) AND (a.flag = 'select' OR a.flag IS NULL) AND a.rating >= ?"));
    assert_eq!(sql.matches('?').count(), p.len());
    assert_eq!(
        p[..8].to_vec(),
        vec![
            SqlValue::Integer(1),
            SqlValue::Integer(2),
            SqlValue::Text("2026-01-01".into()),
            SqlValue::Text("2026-02-01".into()),
            SqlValue::Text("X-T5".into()),
            SqlValue::Text("sky".into()),
            SqlValue::Text("raw".into()),
            SqlValue::Integer(3),
        ]
    );
    assert_eq!(p.len(), 16);
    assert_eq!(p[8], SqlValue::Text("%blue%".into()));
    assert_eq!(p[12], SqlValue::Text("%100\\%%".into()));
}

#[test]
fn sorts_order_undated_last() {
    assert_eq!(Sort::default(), Sort::CapturedDesc);
    assert_eq!(Sort::CapturedAsc.sql(), "a.captured_at IS NULL, a.captured_at ASC, a.id ASC");
    assert_eq!(Sort::Name.sql(), "f.name COLLATE NOCASE, a.id");
}

#[test]
fn the_where_text_depends_on_the_shape_alone() {
    let a = Filter { roots: vec![1], cameras: vec!["X-T5".into()], keywords: vec!["sky".into()], text: Some("blue".into()), ..Filter::default() };
    let b = Filter { roots: vec![9], cameras: vec!["GFX".into()], keywords: vec!["sea".into()], text: Some("red".into()), ..Filter::default() };
    let (sa, pa) = where_clause(&a);
    let (sb, pb) = where_clause(&b);
    assert_eq!(sa, sb);
    assert_ne!(pa, pb);
}

#[test]
fn the_day_after_follows_the_leap_years() {
    assert_eq!(next_day("2024-02-28"), "2024-02-29");
    assert_eq!(next_day("2024-02-29"), "2024-03-01");
    assert_eq!(next_day("1900-02-28"), "1900-03-01");
    assert_eq!(next_day("2000-02-28"), "2000-02-29");
    assert_eq!(next_day("2026-04-30"), "2026-05-01");
}
